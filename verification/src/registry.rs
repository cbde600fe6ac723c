//! The registry: the shared table of live connections and claimed
//! usernames, together with the join arbitration that must be atomic with
//! the table's mutation.
//!
//! The caller (one task per connection) holds the registry behind a single
//! mutual-exclusion boundary; every operation here is one atomic step of
//! that discipline. A connection id appears at most once among the
//! connections, a username belongs to at most one connection id at a time,
//! and every claim belongs to a registered connection.

use vstd::prelude::*;
use futures_channel::mpsc::UnboundedSender;
use crate::channel;

verus! {

/// Why `register` refused to add a connection.
#[derive(PartialEq, Eq, Structural, Debug, Clone, Copy)]
pub enum RegistryError {
    DuplicateId,
}

/// The outcome of one join attempt. A rejection means the requested
/// username already belonged to a different connection.
#[derive(PartialEq, Eq, Structural, Debug, Clone, Copy)]
pub enum JoinOutcome {
    Admitted,
    Rejected,
}

/// Whether some claim in `claims` holds `name` for a connection other than
/// `id` — the condition under which a join attempt by `id` is rejected.
pub open spec fn claim_taken_by_other(claims: Seq<(u64, Seq<u8>)>, id: u64, name: Seq<u8>) -> bool {
    exists|j: int| 0 <= j < claims.len() && claims[j].1 == name && claims[j].0 != id
}

/// Whether a join attempt by `id` for `name` is admitted against `claims`.
pub open spec fn claim_admitted(claims: Seq<(u64, Seq<u8>)>, id: u64, name: Seq<u8>) -> bool {
    !claim_taken_by_other(claims, id, name)
}

/// The claims after one join attempt by `id` for `name`.
pub open spec fn claims_after(claims: Seq<(u64, Seq<u8>)>, id: u64, name: Seq<u8>) -> Seq<
    (u64, Seq<u8>),
> {
    if claim_admitted(claims, id, name) {
        claims.push((id, name))
    } else {
        claims
    }
}

/// How many attempts out of `ids` — made in order, each requesting `name`,
/// each one arbitrated atomically against the claims the one before it
/// left — are admitted, starting from `claims`.
pub open spec fn admitted_count(claims: Seq<(u64, Seq<u8>)>, ids: Seq<u64>, name: Seq<u8>) -> nat
    decreases ids.len(),
{
    if ids.len() == 0 {
        0
    } else {
        (if claim_admitted(claims, ids[0], name) {
            1nat
        } else {
            0nat
        }) + admitted_count(
            claims_after(claims, ids[0], name),
            ids.subrange(1, ids.len() as int),
            name,
        )
    }
}

/// While `name` is held by a connection that makes none of the attempts in
/// `ids`, every attempt in `ids` is rejected.
proof fn lemma_held_name_rejects_all(
    claims: Seq<(u64, Seq<u8>)>,
    ids: Seq<u64>,
    name: Seq<u8>,
    j: int,
)
    requires
        0 <= j < claims.len(),
        claims[j].1 == name,
        !ids.contains(claims[j].0),
    ensures
        admitted_count(claims, ids, name) == 0,
    decreases ids.len(),
{
    if ids.len() > 0 {
        let id0 = ids[0];
        assert(id0 != claims[j].0) by {
            if id0 == claims[j].0 {
                assert(ids[0] == claims[j].0);
            }
        }
        assert(claim_taken_by_other(claims, id0, name));
        let rest = ids.subrange(1, ids.len() as int);
        assert(!rest.contains(claims[j].0)) by {
            if rest.contains(claims[j].0) {
                let t = choose|t: int| 0 <= t < rest.len() && rest[t] == claims[j].0;
                assert(ids[t + 1] == claims[j].0);
            }
        }
        lemma_held_name_rejects_all(claims, rest, name, j);
    }
}

/// Uniqueness: out of any sequence of join attempts for the same username
/// from pairwise-distinct connections, arbitrated one after another, at
/// most one is admitted — whatever claims already stand.
pub proof fn lemma_join_race_uniqueness(claims: Seq<(u64, Seq<u8>)>, ids: Seq<u64>, name: Seq<u8>)
    requires
        ids.no_duplicates(),
    ensures
        admitted_count(claims, ids, name) <= 1,
    decreases ids.len(),
{
    if ids.len() > 0 {
        let id0 = ids[0];
        let rest = ids.subrange(1, ids.len() as int);
        assert(rest.no_duplicates()) by {
            assert forall|a: int, b: int|
                0 <= a < rest.len() && 0 <= b < rest.len() && a != b implies rest[a]
                != rest[b] by {
                assert(ids[a + 1] != ids[b + 1]);
            }
        }
        if claim_admitted(claims, id0, name) {
            let claims2 = claims_after(claims, id0, name);
            assert(claims2 == claims.push((id0, name)));
            assert(claims2[claims.len() as int].1 == name);
            assert(!rest.contains(id0)) by {
                if rest.contains(id0) {
                    let t = choose|t: int| 0 <= t < rest.len() && rest[t] == id0;
                    assert(ids[t + 1] == ids[0]);
                }
            }
            lemma_held_name_rejects_all(claims2, rest, name, claims.len() as int);
        } else {
            assert(claims_after(claims, id0, name) == claims);
            lemma_join_race_uniqueness(claims, rest, name);
        }
    }
}

/// Well-formedness of the registry's two tables: connection ids are
/// pairwise distinct, a username belongs to at most one connection id, and
/// every claim belongs to a registered connection.
pub open spec fn tables_wf(conn_ids: Seq<u64>, claims: Seq<(u64, Seq<u8>)>) -> bool {
    &&& conn_ids.no_duplicates()
    &&& forall|i: int, j: int|
        0 <= i < claims.len() && 0 <= j < claims.len() && claims[i].1 == claims[j].1
            ==> claims[i].0 == claims[j].0
    &&& forall|i: int| 0 <= i < claims.len() ==> conn_ids.contains(#[trigger] claims[i].0)
}

/// Filtering a sequence without duplicates leaves no duplicates.
proof fn lemma_filter_keeps_no_duplicates(s: Seq<u64>, pred: spec_fn(u64) -> bool)
    requires
        s.no_duplicates(),
    ensures
        s.filter(pred).no_duplicates(),
    decreases s.len(),
{
    reveal(Seq::filter);
    if s.len() > 0 {
        let rest = s.drop_last();
        assert(rest.no_duplicates()) by {
            assert(forall|a: int, b: int|
                0 <= a < rest.len() && 0 <= b < rest.len() && a != b ==> s[a] != s[b]);
        }
        lemma_filter_keeps_no_duplicates(rest, pred);
        if pred(s.last()) {
            if rest.filter(pred).contains(s.last()) {
                rest.lemma_filter_contains_rev(pred, s.last());
                let t = choose|t: int| 0 <= t < rest.len() && rest[t] == s.last();
                assert(s[t] == s[s.len() - 1]);
            }
            assert(s.filter(pred) == rest.filter(pred).push(s.last()));
        }
    }
}

/// The shared table of live connections and claimed usernames.
pub struct Registry {
    connections: Vec<(u64, UnboundedSender<Vec<u8>>)>,
    claimed_names: Vec<(u64, Vec<u8>)>,
}

impl Registry {
    /// The registered connection ids, in registration order.
    pub closed spec fn conn_ids(self) -> Seq<u64> {
        self.connections@.map_values(|p: (u64, UnboundedSender<Vec<u8>>)| p.0)
    }

    /// The claimed usernames, as (connection id, name) pairs in claim order.
    pub closed spec fn claims(self) -> Seq<(u64, Seq<u8>)> {
        self.claimed_names@.map_values(|p: (u64, Vec<u8>)| (p.0, p.1@))
    }

    /// The registry's invariant.
    pub open spec fn wf(self) -> bool {
        tables_wf(self.conn_ids(), self.claims())
    }

    /// An empty registry.
    pub fn new() -> (r: Registry)
        ensures
            r.wf(),
            r.conn_ids() == Seq::<u64>::empty(),
            r.claims() == Seq::<(u64, Seq<u8>)>::empty(),
    {
        let r = Registry { connections: Vec::new(), claimed_names: Vec::new() };
        proof {
            assert(r.conn_ids() =~= Seq::<u64>::empty());
            assert(r.claims() =~= Seq::<(u64, Seq<u8>)>::empty());
        }
        r
    }

    /// The position of `id` among the connections, if it is registered.
    fn find_conn(&self, id: u64) -> (r: Option<usize>)
        ensures
            match r {
                Some(i) => i < self.conn_ids().len() && self.conn_ids()[i as int] == id,
                None => !self.conn_ids().contains(id),
            },
    {
        let mut i: usize = 0;
        while i < self.connections.len()
            invariant
                i <= self.connections@.len(),
                forall|j: int| 0 <= j < i ==> self.conn_ids()[j] != id,
            decreases self.connections@.len() - i,
        {
            if self.connections[i].0 == id {
                return Some(i);
            }
            i = i + 1;
        }
        proof {
            assert(forall|j: int| 0 <= j < self.conn_ids().len() ==> self.conn_ids()[j] != id);
        }
        None
    }

    /// Whether `id` is currently registered.
    pub fn has_connection(&self, id: u64) -> (r: bool)
        ensures
            r == self.conn_ids().contains(id),
    {
        match self.find_conn(id) {
            Some(_) => true,
            None => false,
        }
    }

    /// Inserts a connection's outbound endpoint under `id`; refused when
    /// `id` is already registered.
    pub fn register(&mut self, id: u64, outbound: UnboundedSender<Vec<u8>>) -> (r: Result<
        (),
        RegistryError,
    >)
        requires
            old(self).wf(),
        ensures
            final(self).wf(),
            old(self).conn_ids().contains(id) ==> r == Err::<(), RegistryError>(
                RegistryError::DuplicateId,
            ) && *final(self) == *old(self),
            !old(self).conn_ids().contains(id) ==> r == Ok::<(), RegistryError>(())
                && final(self).conn_ids() == old(self).conn_ids().push(id)
                && final(self).claims() == old(self).claims(),
    {
        match self.find_conn(id) {
            Some(_) => Err(RegistryError::DuplicateId),
            None => {
                self.connections.push((id, outbound));
                proof {
                    assert(self.conn_ids() =~= old(self).conn_ids().push(id));
                    assert(self.claims() =~= old(self).claims());
                    assert forall|i: int| 0 <= i < self.claims().len() implies self.conn_ids()
                        .contains((#[trigger] self.claims()[i]).0) by {
                        let c = self.claims()[i].0;
                        assert(old(self).conn_ids().contains(c));
                        let t = choose|t: int|
                            0 <= t < old(self).conn_ids().len() && old(self).conn_ids()[t] == c;
                        assert(self.conn_ids()[t] == c);
                    }
                }
                Ok(())
            },
        }
    }

    /// Removes `id`'s connection and every username claimed under `id`.
    /// Idempotent: removing an absent id changes nothing.
    pub fn deregister(&mut self, id: u64)
        requires
            old(self).wf(),
        ensures
            final(self).wf(),
            final(self).conn_ids() == old(self).conn_ids().filter(|c: u64| c != id),
            final(self).claims() == old(self).claims().filter(|c: (u64, Seq<u8>)| c.0 != id),
            !final(self).conn_ids().contains(id),
            forall|j: int|
                0 <= j < final(self).claims().len() ==> (#[trigger] final(self).claims()[j]).0
                    != id,
    {
        let ghost fc = |c: u64| c != id;
        let ghost ff = |c: (u64, Seq<u8>)| c.0 != id;
        let mut kept_conns: Vec<(u64, UnboundedSender<Vec<u8>>)> = Vec::new();
        let mut i: usize = 0;
        proof {
            assert(old(self).conn_ids().subrange(0, 0).filter(fc) =~= kept_conns@.map_values(
                |p: (u64, UnboundedSender<Vec<u8>>)| p.0,
            ));
        }
        while i < self.connections.len()
            invariant
                *self == *old(self),
                old(self).wf(),
                i <= self.connections@.len(),
                fc == (|c: u64| c != id),
                kept_conns@.map_values(|p: (u64, UnboundedSender<Vec<u8>>)| p.0)
                    == old(self).conn_ids().subrange(0, i as int).filter(fc),
            decreases self.connections@.len() - i,
        {
            let ghost pre = old(self).conn_ids().subrange(0, i as int);
            let ghost kept_pre = kept_conns@;
            let cur_id = self.connections[i].0;
            if cur_id != id {
                let tx = channel::clone_sender(&self.connections[i].1);
                kept_conns.push((cur_id, tx));
            }
            i = i + 1;
            proof {
                let cur = old(self).conn_ids().subrange(0, i as int);
                assert(cur.drop_last() =~= pre);
                assert(cur.last() == cur_id);
                reveal_with_fuel(Seq::filter, 2);
                if cur_id != id {
                    assert(kept_conns@.map_values(|p: (u64, UnboundedSender<Vec<u8>>)| p.0)
                        =~= kept_pre.map_values(|p: (u64, UnboundedSender<Vec<u8>>)| p.0).push(
                        cur_id,
                    ));
                }
            }
        }
        let mut kept_claims: Vec<(u64, Vec<u8>)> = Vec::new();
        let mut k: usize = 0;
        proof {
            assert(old(self).conn_ids().subrange(0, old(self).conn_ids().len() as int)
                =~= old(self).conn_ids());
            assert(old(self).claims().subrange(0, 0).filter(ff) =~= kept_claims@.map_values(
                |p: (u64, Vec<u8>)| (p.0, p.1@),
            ));
        }
        while k < self.claimed_names.len()
            invariant
                *self == *old(self),
                k <= self.claimed_names@.len(),
                ff == (|c: (u64, Seq<u8>)| c.0 != id),
                kept_claims@.map_values(|p: (u64, Vec<u8>)| (p.0, p.1@)) == old(self).claims()
                    .subrange(0, k as int).filter(ff),
            decreases self.claimed_names@.len() - k,
        {
            let ghost pre = old(self).claims().subrange(0, k as int);
            let ghost kept_pre = kept_claims@;
            let cur_id = self.claimed_names[k].0;
            if cur_id != id {
                let name = crate::protocol::copy_bytes(&self.claimed_names[k].1);
                kept_claims.push((cur_id, name));
            }
            k = k + 1;
            proof {
                let cur = old(self).claims().subrange(0, k as int);
                assert(cur.drop_last() =~= pre);
                assert(cur.last() == (cur_id, old(self).claimed_names@[k - 1].1@));
                reveal_with_fuel(Seq::filter, 2);
                if cur_id != id {
                    assert(kept_claims@.map_values(|p: (u64, Vec<u8>)| (p.0, p.1@))
                        =~= kept_pre.map_values(|p: (u64, Vec<u8>)| (p.0, p.1@)).push(
                        (cur_id, old(self).claimed_names@[k - 1].1@),
                    ));
                }
            }
        }
        proof {
            assert(old(self).claims().subrange(0, old(self).claims().len() as int)
                =~= old(self).claims());
        }
        self.connections = kept_conns;
        self.claimed_names = kept_claims;
        proof {
            let new_ids = self.conn_ids();
            let new_claims = self.claims();
            assert(new_ids == old(self).conn_ids().filter(fc));
            assert(new_claims == old(self).claims().filter(ff));
            assert forall|j: int| 0 <= j < new_claims.len() implies (
            #[trigger] new_claims[j]).0 != id by {
                old(self).claims().lemma_filter_pred(ff, j);
            }
            if new_ids.contains(id) {
                let j = choose|j: int| 0 <= j < new_ids.len() && new_ids[j] == id;
                old(self).conn_ids().lemma_filter_pred(fc, j);
            }
            assert(new_ids.no_duplicates()) by {
                lemma_filter_keeps_no_duplicates(old(self).conn_ids(), fc);
            }
            assert forall|a: int, b: int|
                0 <= a < new_claims.len() && 0 <= b < new_claims.len() && new_claims[a].1
                    == new_claims[b].1 implies new_claims[a].0 == new_claims[b].0 by {
                let x = new_claims[a];
                let y = new_claims[b];
                assert(old(self).claims().filter(ff)[a] == x);
                assert(old(self).claims().filter(ff).contains(x));
                assert(old(self).claims().filter(ff)[b] == y);
                assert(old(self).claims().filter(ff).contains(y));
                old(self).claims().lemma_filter_contains_rev(ff, x);
                old(self).claims().lemma_filter_contains_rev(ff, y);
                let ia = choose|t: int|
                    0 <= t < old(self).claims().len() && old(self).claims()[t] == x;
                let ib = choose|t: int|
                    0 <= t < old(self).claims().len() && old(self).claims()[t] == y;
                assert(old(self).claims()[ia].1 == old(self).claims()[ib].1);
            }
            assert forall|a: int| 0 <= a < new_claims.len() implies new_ids.contains(
                (#[trigger] new_claims[a]).0,
            ) by {
                let x = new_claims[a];
                assert(old(self).claims().filter(ff)[a] == x);
                assert(old(self).claims().filter(ff).contains(x));
                old(self).claims().lemma_filter_contains_rev(ff, x);
                old(self).claims().lemma_filter_pred(ff, a);
                let ia = choose|t: int|
                    0 <= t < old(self).claims().len() && old(self).claims()[t] == x;
                assert(old(self).conn_ids().contains(x.0));
                let t2 = choose|t: int|
                    0 <= t < old(self).conn_ids().len() && old(self).conn_ids()[t] == x.0;
                assert(fc(x.0));
                old(self).conn_ids().lemma_filter_contains(fc, t2);
            }
        }
    }

    /// Validates a join request and, when admitted, records the claim — one
    /// atomic step, so two racing attempts can never both be admitted.
    /// Rejection leaves the registry unchanged; the caller sends the
    /// rejection notice and deregisters the connection.
    pub fn try_claim_username(&mut self, id: u64, name: &Vec<u8>) -> (r: JoinOutcome)
        requires
            old(self).wf(),
            old(self).conn_ids().contains(id),
        ensures
            final(self).wf(),
            final(self).conn_ids() == old(self).conn_ids(),
            final(self).claims() == claims_after(old(self).claims(), id, name@),
            r == JoinOutcome::Admitted <==> claim_admitted(old(self).claims(), id, name@),
            r == JoinOutcome::Rejected ==> *final(self) == *old(self),
    {
        let mut j: usize = 0;
        while j < self.claimed_names.len()
            invariant
                *self == *old(self),
                old(self).wf(),
                j <= self.claimed_names@.len(),
                forall|t: int|
                    0 <= t < j ==> !((#[trigger] self.claims()[t]).1 == name@
                        && self.claims()[t].0 != id),
            decreases self.claimed_names@.len() - j,
        {
            let same_name = crate::protocol::bytes_eq(&self.claimed_names[j].1, name);
            if same_name && self.claimed_names[j].0 != id {
                proof {
                    assert(self.claims()[j as int].1 == name@ && self.claims()[j as int].0 != id);
                }
                return JoinOutcome::Rejected;
            }
            j = j + 1;
        }
        proof {
            assert(claim_admitted(self.claims(), id, name@));
        }
        let owned = crate::protocol::copy_bytes(name);
        self.claimed_names.push((id, owned));
        proof {
            assert(self.claims() =~= old(self).claims().push((id, name@)));
            assert(self.conn_ids() =~= old(self).conn_ids());
        }
        JoinOutcome::Admitted
    }

    /// The broadcaster: fans one chat message from `sender_id` out to every
    /// other registered connection — for each, every pending notice in
    /// order, then the message itself — and returns the record of attempted
    /// sends, which equals the delivery plan exactly. A recipient whose
    /// endpoint fails is skipped, never the whole broadcast.
    pub fn deliver(&self, sender_id: u64, pending: &Vec<Vec<u8>>, msg: &Vec<u8>) -> (sends: Vec<
        (u64, Vec<u8>),
    >)
        ensures
            crate::fanout::sends_view(sends@) == crate::fanout::broadcast_plan(
                self.conn_ids(),
                sender_id,
                crate::fanout::notices_view(pending@),
                msg@,
            ),
    {
        let ghost all_notices = crate::fanout::notices_view(pending@);
        let mut sends: Vec<(u64, Vec<u8>)> = Vec::new();
        let mut i: usize = 0;
        proof {
            assert(crate::fanout::sends_view(sends@) =~= crate::fanout::broadcast_plan(
                self.conn_ids().subrange(0, 0),
                sender_id,
                all_notices,
                msg@,
            ));
        }
        while i < self.connections.len()
            invariant
                i <= self.connections@.len(),
                all_notices == crate::fanout::notices_view(pending@),
                crate::fanout::sends_view(sends@) == crate::fanout::broadcast_plan(
                    self.conn_ids().subrange(0, i as int),
                    sender_id,
                    all_notices,
                    msg@,
                ),
            decreases self.connections@.len() - i,
        {
            let ghost plan_pre = crate::fanout::sends_view(sends@);
            let cur_id = self.connections[i].0;
            if cur_id != sender_id {
                let mut t: usize = 0;
                while t < pending.len()
                    invariant
                        t <= pending@.len(),
                        i < self.connections@.len(),
                        all_notices == crate::fanout::notices_view(pending@),
                        crate::fanout::sends_view(sends@).len() == plan_pre.len() + t,
                        forall|k: int|
                            0 <= k < plan_pre.len() ==> crate::fanout::sends_view(sends@)[k]
                                == plan_pre[k],
                        forall|k: int|
                            0 <= k < t ==> crate::fanout::sends_view(sends@)[plan_pre.len() + k]
                                == (cur_id, all_notices[k]),
                    decreases pending@.len() - t,
                {
                    let ghost pre = sends@;
                    let payload = crate::protocol::copy_bytes(&pending[t]);
                    channel::send_payload(&self.connections[i].1, payload);
                    let recorded = crate::protocol::copy_bytes(&pending[t]);
                    sends.push((cur_id, recorded));
                    t = t + 1;
                    proof {
                        assert forall|k: int|
                            0 <= k < plan_pre.len() implies crate::fanout::sends_view(
                            sends@,
                        )[k] == plan_pre[k] by {
                            assert(crate::fanout::sends_view(pre)[k] == plan_pre[k]);
                            assert(sends@[k] == pre[k]);
                        }
                        assert forall|k: int|
                            0 <= k < t - 1 implies crate::fanout::sends_view(sends@)[plan_pre.len()
                            + k] == (cur_id, all_notices[k]) by {
                            assert(crate::fanout::sends_view(pre)[plan_pre.len() + k] == (
                            cur_id,
                            all_notices[k],
                            ));
                            assert(sends@[plan_pre.len() + k] == pre[plan_pre.len() + k]);
                        }
                        assert(crate::fanout::sends_view(sends@)[plan_pre.len() + (t - 1)] == (
                        cur_id,
                        all_notices[t - 1],
                        ));
                    }
                }
                let ghost pre = sends@;
                let m = crate::protocol::copy_bytes(msg);
                channel::send_payload(&self.connections[i].1, m);
                let recorded_msg = crate::protocol::copy_bytes(msg);
                sends.push((cur_id, recorded_msg));
                proof {
                    let burst = crate::fanout::recipient_burst(cur_id, all_notices, msg@);
                    let lhs = crate::fanout::sends_view(sends@);
                    let rhs = plan_pre + burst;
                    assert(lhs.len() == rhs.len());
                    assert forall|k: int| 0 <= k < lhs.len() implies lhs[k] == rhs[k] by {
                        if k < plan_pre.len() {
                            assert(crate::fanout::sends_view(pre)[k] == plan_pre[k]);
                            assert(sends@[k] == pre[k]);
                        } else if k < lhs.len() - 1 {
                            assert(crate::fanout::sends_view(pre)[k] == (
                            cur_id,
                            all_notices[k - plan_pre.len()],
                            ));
                            assert(sends@[k] == pre[k]);
                            assert(burst[k - plan_pre.len()] == (
                            cur_id,
                            all_notices[k - plan_pre.len()],
                            ));
                        } else {
                            assert(lhs[k] == (cur_id, msg@));
                            assert(burst[k - plan_pre.len()] == (cur_id, msg@));
                        }
                    }
                    assert(lhs =~= rhs);
                }
            }
            i = i + 1;
            proof {
                let cur = self.conn_ids().subrange(0, i as int);
                assert(cur.drop_last() =~= self.conn_ids().subrange(0, i - 1));
                assert(cur.last() == cur_id);
                if cur_id == sender_id {
                    assert(crate::fanout::sends_view(sends@) =~= crate::fanout::broadcast_plan(
                        cur,
                        sender_id,
                        all_notices,
                        msg@,
                    ));
                } else {
                    assert(crate::fanout::sends_view(sends@) =~= crate::fanout::broadcast_plan(
                        cur,
                        sender_id,
                        all_notices,
                        msg@,
                    ));
                }
            }
        }
        proof {
            assert(self.conn_ids().subrange(0, self.conn_ids().len() as int)
                =~= self.conn_ids());
        }
        sends
    }

    /// Sends one payload to `id`'s own endpoint, if `id` is registered.
    /// Used for the rejection notice, which goes to the requester alone;
    /// whether the send lands depends on the receiving half, so nothing is
    /// promised of the result.
    pub fn send_to_connection(&self, id: u64, payload: Vec<u8>) -> (sent: bool)
        ensures
            !self.conn_ids().contains(id) ==> sent == false,
    {
        match self.find_conn(id) {
            Some(i) => channel::send_payload(&self.connections[i].1, payload),
            None => false,
        }
    }

    /// All registered outbound endpoints except `exclude_id`'s, as clones of
    /// the stored sending handles; the snapshot is taken in one atomic step.
    pub fn snapshot_recipients(&self, exclude_id: u64) -> (r: Vec<
        (u64, UnboundedSender<Vec<u8>>),
    >)
        ensures
            r@.map_values(|p: (u64, UnboundedSender<Vec<u8>>)| p.0) == self.conn_ids().filter(
                |c: u64| c != exclude_id,
            ),
    {
        let ghost fc = |c: u64| c != exclude_id;
        let mut out: Vec<(u64, UnboundedSender<Vec<u8>>)> = Vec::new();
        let mut i: usize = 0;
        proof {
            assert(self.conn_ids().subrange(0, 0).filter(fc) =~= out@.map_values(
                |p: (u64, UnboundedSender<Vec<u8>>)| p.0,
            ));
        }
        while i < self.connections.len()
            invariant
                i <= self.connections@.len(),
                fc == (|c: u64| c != exclude_id),
                out@.map_values(|p: (u64, UnboundedSender<Vec<u8>>)| p.0) == self.conn_ids()
                    .subrange(0, i as int).filter(fc),
            decreases self.connections@.len() - i,
        {
            let ghost pre = self.conn_ids().subrange(0, i as int);
            let ghost out_pre = out@;
            let cur_id = self.connections[i].0;
            if cur_id != exclude_id {
                let tx = channel::clone_sender(&self.connections[i].1);
                out.push((cur_id, tx));
            }
            i = i + 1;
            proof {
                let cur = self.conn_ids().subrange(0, i as int);
                assert(cur.drop_last() =~= pre);
                assert(cur.last() == cur_id);
                reveal_with_fuel(Seq::filter, 2);
                if cur_id != exclude_id {
                    assert(out@.map_values(|p: (u64, UnboundedSender<Vec<u8>>)| p.0)
                        =~= out_pre.map_values(|p: (u64, UnboundedSender<Vec<u8>>)| p.0).push(
                        cur_id,
                    ));
                }
            }
        }
        proof {
            assert(self.conn_ids().subrange(0, self.conn_ids().len() as int)
                =~= self.conn_ids());
        }
        out
    }
}

} // verus!
