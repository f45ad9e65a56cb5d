//! The admin/stats surface: per-user online counters, per-user cumulative
//! traffic counters, the client lists behind the listing and kick
//! endpoints, and the bearer-token check. The connection controller calls
//! the five hooks; the HTTP layer only reads and formats.

use std::collections::HashMap;

use vstd::prelude::*;
use vstd::string::StringSliceAdditionalSpecFns;

use crate::address::SocketAddress;

verus! {

broadcast use vstd::std_specs::hash::group_hash_axioms, vstd::seq_lib::group_seq_properties;

/// One live client of a user: the connection's stable id and its remote
/// address.
pub type ClientEntry = (u32, SocketAddress);

/// The counters and client list of one user.
pub struct UserRecord {
    pub online: u64,
    pub tx: u64,
    pub rx: u64,
    pub clients: Vec<ClientEntry>,
}

/// Mathematical model of one user's counters.
#[verifier::ext_equal]
pub struct UserRecordView {
    pub online: u64,
    pub tx: u64,
    pub rx: u64,
    pub clients: Seq<ClientEntry>,
}

impl View for UserRecord {
    type V = UserRecordView;

    open spec fn view(&self) -> UserRecordView {
        UserRecordView { online: self.online, tx: self.tx, rx: self.rx, clients: self.clients@ }
    }
}

/// A user record with all counters at zero.
pub open spec fn zero_record() -> UserRecordView {
    UserRecordView { online: 0, tx: 0, rx: 0, clients: Seq::empty() }
}

/// The stats table with one zeroed record per configured user.
pub open spec fn zeroed_stats(ids: Seq<u128>) -> Map<u128, UserRecordView> {
    Map::new(|u: u128| ids.contains(u), |u: u128| zero_record())
}

/// `m` after charging `n` sent bytes to `uuid`; saturating, so the counter
/// never decreases. Unknown users are left untouched.
pub open spec fn charge_tx(m: Map<u128, UserRecordView>, uuid: u128, n: u64) -> Map<
    u128,
    UserRecordView,
> {
    if m.contains_key(uuid) {
        m.insert(
            uuid,
            UserRecordView {
                tx: if m[uuid].tx + n <= u64::MAX {
                    (m[uuid].tx + n) as u64
                } else {
                    u64::MAX
                },
                ..m[uuid]
            },
        )
    } else {
        m
    }
}

/// `m` after charging `n` received bytes to `uuid`.
pub open spec fn charge_rx(m: Map<u128, UserRecordView>, uuid: u128, n: u64) -> Map<
    u128,
    UserRecordView,
> {
    if m.contains_key(uuid) {
        m.insert(
            uuid,
            UserRecordView {
                rx: if m[uuid].rx + n <= u64::MAX {
                    (m[uuid].rx + n) as u64
                } else {
                    u64::MAX
                },
                ..m[uuid]
            },
        )
    } else {
        m
    }
}

/// Traffic counters never decrease when traffic is charged, and charging
/// one kind of traffic leaves the other kind and every other user alone.
pub proof fn lemma_traffic_monotone(m: Map<u128, UserRecordView>, uuid: u128, n: u64)
    ensures
        forall|u: u128| charge_tx(m, uuid, n).contains_key(u) <==> m.contains_key(u),
        forall|u: u128|
            m.contains_key(u) ==> (#[trigger] charge_tx(m, uuid, n)[u]).tx >= m[u].tx
                && charge_tx(m, uuid, n)[u].rx == m[u].rx,
        forall|u: u128| charge_rx(m, uuid, n).contains_key(u) <==> m.contains_key(u),
        forall|u: u128|
            m.contains_key(u) ==> (#[trigger] charge_rx(m, uuid, n)[u]).rx >= m[u].rx
                && charge_rx(m, uuid, n)[u].tx == m[u].tx,
{
}

/// Whether one more connection of `uuid` stays within the per-user limit;
/// a limit of zero means unlimited.
pub open spec fn connect_allowed(m: Map<u128, UserRecordView>, uuid: u128, limit: u64) -> bool {
    limit == 0 || m[uuid].online + 1 <= limit
}

/// The client list of `cs` without the entries of connection `id`.
pub open spec fn without_client(cs: Seq<ClientEntry>, id: u32) -> Seq<ClientEntry>
    decreases cs.len(),
{
    if cs.len() == 0 {
        Seq::empty()
    } else {
        let rest = without_client(cs.drop_last(), id);
        if cs.last().0 == id {
            rest
        } else {
            rest.push(cs.last())
        }
    }
}

/// The users of `ids` whose online count is not zero, with their counts,
/// in table order.
pub open spec fn nonzero_online(m: Map<u128, UserRecordView>, ids: Seq<u128>) -> Seq<(u128, u64)>
    decreases ids.len(),
{
    if ids.len() == 0 {
        Seq::empty()
    } else {
        let rest = nonzero_online(m, ids.drop_last());
        let u = ids.last();
        if m.contains_key(u) && m[u].online != 0 {
            rest.push((u, m[u].online))
        } else {
            rest
        }
    }
}

/// The users of `ids` with any traffic, with their counters, in table
/// order.
pub open spec fn nonzero_traffic(m: Map<u128, UserRecordView>, ids: Seq<u128>) -> Seq<
    (u128, u64, u64),
>
    decreases ids.len(),
{
    if ids.len() == 0 {
        Seq::empty()
    } else {
        let rest = nonzero_traffic(m, ids.drop_last());
        let u = ids.last();
        if m.contains_key(u) && (m[u].tx != 0 || m[u].rx != 0) {
            rest.push((u, m[u].tx, m[u].rx))
        } else {
            rest
        }
    }
}

/// `m` with the traffic counters of the users in `ids` zeroed.
pub open spec fn traffic_reset(m: Map<u128, UserRecordView>, ids: Seq<u128>) -> Map<
    u128,
    UserRecordView,
> {
    Map::new(
        |u: u128| m.contains_key(u),
        |u: u128|
            if ids.contains(u) {
                UserRecordView { tx: 0, rx: 0, ..m[u] }
            } else {
                m[u]
            },
    )
}

/// The process-wide admin state: one record per configured user.
pub struct Stats {
    records: HashMap<u128, UserRecord>,
    uuids: Vec<u128>,
}

impl View for Stats {
    type V = Map<u128, UserRecordView>;

    closed spec fn view(&self) -> Map<u128, UserRecordView> {
        Map::new(|u: u128| self.records@.contains_key(u), |u: u128| self.records@[u]@)
    }
}

impl Stats {
    /// The configured users, in table order.
    pub closed spec fn user_ids(&self) -> Seq<u128> {
        self.uuids@
    }

    /// The user list mirrors the record map.
    pub closed spec fn wf(&self) -> bool {
        &&& self.uuids@.no_duplicates()
        &&& (forall|u: u128| self.records@.contains_key(u) <==> self.uuids@.contains(u))
    }

    /// A table with a zeroed record for every configured user.
    pub fn new(users: &Vec<u128>) -> (r: Self)
        requires
            users@.no_duplicates(),
        ensures
            r.wf(),
            r.user_ids() == users@,
            r@ == zeroed_stats(users@),
    {
        let mut records: HashMap<u128, UserRecord> = HashMap::new();
        let mut i: usize = 0;
        proof {
            assert(Map::new(
                |u: u128| records@.contains_key(u),
                |u: u128| records@[u]@,
            ) =~= zeroed_stats(users@.subrange(0, 0)));
        }
        while i < users.len()
            invariant
                users@.no_duplicates(),
                i <= users@.len(),
                Map::new(|u: u128| records@.contains_key(u), |u: u128| records@[u]@)
                    =~= zeroed_stats(users@.subrange(0, i as int)),
            decreases users@.len() - i,
        {
            let u = users[i];
            let ghost recs0 = records@;
            records.insert(u, UserRecord { online: 0, tx: 0, rx: 0, clients: Vec::new() });
            i = i + 1;
            proof {
                let pre = users@.subrange(0, i as int - 1);
                let post = users@.subrange(0, i as int);
                assert(Map::new(
                    |u2: u128| recs0.contains_key(u2),
                    |u2: u128| recs0[u2]@,
                ) =~= zeroed_stats(pre));
                assert(post =~= pre.push(u));
                assert forall|u2: u128| post.contains(u2) <==> (pre.contains(u2) || u2 == u) by {
                    if post.contains(u2) {
                        let j = choose|j: int| 0 <= j < post.len() && post[j] == u2;
                        if j < pre.len() {
                            assert(pre[j] == u2);
                        }
                    }
                    if pre.contains(u2) {
                        let j = choose|j: int| 0 <= j < pre.len() && pre[j] == u2;
                        assert(post[j] == u2);
                    }
                    assert(post[pre.len() as int] == u);
                }
                assert forall|u2: u128|
                    records@.contains_key(u2) implies records@[u2]@ =~= zero_record() by {
                    if u2 != u {
                        assert(records@[u2] == recs0[u2]);
                        assert(Map::new(
                            |x: u128| recs0.contains_key(x),
                            |x: u128| recs0[x]@,
                        )[u2] == zeroed_stats(pre)[u2]);
                    } else {
                        assert(records@[u]@.clients =~= Seq::<ClientEntry>::empty());
                    }
                }
                assert forall|u2: u128|
                    records@.contains_key(u2) <==> post.contains(u2) by {
                    assert(Map::new(
                        |x: u128| recs0.contains_key(x),
                        |x: u128| recs0[x]@,
                    ).contains_key(u2) == zeroed_stats(pre).contains_key(u2));
                }
                assert(Map::new(
                    |u2: u128| records@.contains_key(u2),
                    |u2: u128| records@[u2]@,
                ) =~= zeroed_stats(post));
            }
        }
        proof {
            assert(users@.subrange(0, users@.len() as int) =~= users@);
        }
        let r = Stats { records, uuids: clone_ids(users) };
        proof {
            assert(r@ =~= zeroed_stats(users@));
            assert forall|u: u128| r.records@.contains_key(u) <==> r.uuids@.contains(u) by {
                assert(r@.contains_key(u) == zeroed_stats(users@).contains_key(u));
            }
        }
        r
    }

    /// Charges sent bytes to a user; called on every relayed byte batch in
    /// the client-to-target direction. Counters saturate and never
    /// decrease; an unknown uuid changes nothing.
    pub fn traffic_tx(&mut self, uuid: u128, n: u64)
        requires
            old(self).wf(),
        ensures
            final(self).wf(),
            final(self)@ == charge_tx(old(self)@, uuid, n),
            final(self).user_ids() == old(self).user_ids(),
    {
        let rec = self.records.remove(&uuid);
        match rec {
            Some(mut rec) => {
                rec.tx = if rec.tx <= u64::MAX - n {
                    rec.tx + n
                } else {
                    u64::MAX
                };
                self.records.insert(uuid, rec);
                assert(self@ =~= charge_tx(old(self)@, uuid, n));
            },
            None => {
                assert(self@ =~= old(self)@);
                assert(self@ =~= charge_tx(old(self)@, uuid, n));
            },
        }
        assert forall|u: u128| self.records@.contains_key(u) <==> self.uuids@.contains(u) by {}
    }

    /// Charges received bytes to a user; the target-to-client direction.
    pub fn traffic_rx(&mut self, uuid: u128, n: u64)
        requires
            old(self).wf(),
        ensures
            final(self).wf(),
            final(self)@ == charge_rx(old(self)@, uuid, n),
            final(self).user_ids() == old(self).user_ids(),
    {
        let rec = self.records.remove(&uuid);
        match rec {
            Some(mut rec) => {
                rec.rx = if rec.rx <= u64::MAX - n {
                    rec.rx + n
                } else {
                    u64::MAX
                };
                self.records.insert(uuid, rec);
                assert(self@ =~= charge_rx(old(self)@, uuid, n));
            },
            None => {
                assert(self@ =~= old(self)@);
                assert(self@ =~= charge_rx(old(self)@, uuid, n));
            },
        }
        assert forall|u: u128| self.records@.contains_key(u) <==> self.uuids@.contains(u) by {}
    }

    /// Counts a client in, after its successful authentication. The online
    /// counter always rises; when a nonzero per-user limit would be
    /// exceeded by this client, it is refused and not added to the client
    /// list — the caller closes it with the limit error code.
    pub fn client_connect(&mut self, uuid: u128, conn_id: u32, addr: SocketAddress, limit: u64)
        -> (accepted: bool)
        requires
            old(self).wf(),
            old(self)@.contains_key(uuid),
        ensures
            final(self).wf(),
            final(self).user_ids() == old(self).user_ids(),
            accepted == connect_allowed(old(self)@, uuid, limit),
            final(self)@.contains_key(uuid),
            ({
                let o = old(self)@[uuid];
                let f = final(self)@[uuid];
                &&& f.online == (if o.online < u64::MAX {
                    (o.online + 1) as u64
                } else {
                    u64::MAX
                })
                &&& f.tx == o.tx && f.rx == o.rx
                &&& f.clients == (if accepted {
                    o.clients.push((conn_id, addr))
                } else {
                    o.clients
                })
            }),
            forall|u: u128| #[trigger]
                final(self)@.contains_key(u) <==> old(self)@.contains_key(u),
            forall|u: u128|
                u != uuid && old(self)@.contains_key(u) ==> final(self)@[u] == old(self)@[u],
    {
        let rec = self.records.remove(&uuid);
        match rec {
            Some(mut rec) => {
                let prior = rec.online;
                rec.online = if prior < u64::MAX {
                    prior + 1
                } else {
                    u64::MAX
                };
                let accepted = limit == 0 || (prior < u64::MAX && prior + 1 <= limit);
                if accepted {
                    rec.clients.push((conn_id, addr));
                }
                self.records.insert(uuid, rec);
                proof {
                    assert forall|u: u128|
                        self.records@.contains_key(u) <==> self.uuids@.contains(u) by {}
                }
                accepted
            },
            None => {
                proof {
                    assert(false);
                }
                false
            },
        }
    }

    /// Counts a client out when its connection ends: the online counter
    /// falls (never below zero), and the client's entries leave the list.
    pub fn client_disconnect(&mut self, uuid: u128, conn_id: u32)
        requires
            old(self).wf(),
        ensures
            final(self).wf(),
            final(self).user_ids() == old(self).user_ids(),
            !old(self)@.contains_key(uuid) ==> final(self)@ == old(self)@,
            old(self)@.contains_key(uuid) ==> {
                let o = old(self)@[uuid];
                let f = final(self)@[uuid];
                &&& final(self)@.contains_key(uuid)
                &&& f.online == (if o.online > 0 {
                    (o.online - 1) as u64
                } else {
                    0u64
                })
                &&& f.tx == o.tx && f.rx == o.rx
                &&& f.clients == without_client(o.clients, conn_id)
            },
            forall|u: u128| #[trigger]
                final(self)@.contains_key(u) <==> old(self)@.contains_key(u),
            forall|u: u128|
                u != uuid && old(self)@.contains_key(u) ==> final(self)@[u] == old(self)@[u],
    {
        let rec = self.records.remove(&uuid);
        match rec {
            Some(mut rec) => {
                rec.online = if rec.online > 0 {
                    rec.online - 1
                } else {
                    0
                };
                let kept = drop_client(rec.clients, conn_id);
                rec.clients = kept;
                self.records.insert(uuid, rec);
                proof {
                    assert(self@ =~= old(self)@.insert(uuid, self@[uuid]));
                    assert forall|u: u128|
                        self.records@.contains_key(u) <==> self.uuids@.contains(u) by {}
                }
            },
            None => {
                assert(self@ =~= old(self)@);
            },
        }
    }

    /// The live clients of a user: what an administrative kick closes, each
    /// with the kick error code. The table itself does not change; the
    /// counters fall as the closed connections disconnect.
    pub fn kick(&self, uuid: u128) -> (r: Vec<ClientEntry>)
        ensures
            self@.contains_key(uuid) ==> r@ == self@[uuid].clients,
            !self@.contains_key(uuid) ==> r@ == Seq::<ClientEntry>::empty(),
    {
        match self.records.get(&uuid) {
            Some(rec) => copy_clients(&rec.clients),
            None => Vec::new(),
        }
    }

    /// The users with at least one live connection, with their counts.
    pub fn list_online(&self) -> (r: Vec<(u128, u64)>)
        requires
            self.wf(),
        ensures
            r@ == nonzero_online(self@, self.user_ids()),
    {
        let ghost m = self@;
        let mut out: Vec<(u128, u64)> = Vec::new();
        let mut i: usize = 0;
        proof {
            assert(nonzero_online(m, self.uuids@.subrange(0, 0)) =~= Seq::<(u128, u64)>::empty());
        }
        while i < self.uuids.len()
            invariant
                self.wf(),
                m == self@,
                i <= self.uuids@.len(),
                out@ == nonzero_online(m, self.uuids@.subrange(0, i as int)),
            decreases self.uuids@.len() - i,
        {
            let u = self.uuids[i];
            proof {
                assert(self.uuids@.contains(u));
            }
            match self.records.get(&u) {
                Some(rec) => {
                    if rec.online != 0 {
                        out.push((u, rec.online));
                    }
                },
                None => {
                    assert(false);
                },
            }
            i = i + 1;
            proof {
                let post = self.uuids@.subrange(0, i as int);
                assert(post.drop_last() =~= self.uuids@.subrange(0, i as int - 1));
                assert(post.last() == u);
            }
        }
        proof {
            assert(self.uuids@.subrange(0, self.uuids@.len() as int) =~= self.uuids@);
        }
        out
    }

    /// The users with any traffic, with their cumulative counters.
    pub fn list_traffic(&self) -> (r: Vec<(u128, u64, u64)>)
        requires
            self.wf(),
        ensures
            r@ == nonzero_traffic(self@, self.user_ids()),
    {
        let ghost m = self@;
        let mut out: Vec<(u128, u64, u64)> = Vec::new();
        let mut i: usize = 0;
        proof {
            assert(nonzero_traffic(m, self.uuids@.subrange(0, 0)) =~= Seq::<
                (u128, u64, u64),
            >::empty());
        }
        while i < self.uuids.len()
            invariant
                self.wf(),
                m == self@,
                i <= self.uuids@.len(),
                out@ == nonzero_traffic(m, self.uuids@.subrange(0, i as int)),
            decreases self.uuids@.len() - i,
        {
            let u = self.uuids[i];
            proof {
                assert(self.uuids@.contains(u));
            }
            match self.records.get(&u) {
                Some(rec) => {
                    if rec.tx != 0 || rec.rx != 0 {
                        out.push((u, rec.tx, rec.rx));
                    }
                },
                None => {
                    assert(false);
                },
            }
            i = i + 1;
            proof {
                let post = self.uuids@.subrange(0, i as int);
                assert(post.drop_last() =~= self.uuids@.subrange(0, i as int - 1));
                assert(post.last() == u);
            }
        }
        proof {
            assert(self.uuids@.subrange(0, self.uuids@.len() as int) =~= self.uuids@);
        }
        out
    }

    /// Returns the nonzero traffic counters and zeroes every user's
    /// counters: the read-and-reset admin endpoint.
    pub fn reset_traffic(&mut self) -> (r: Vec<(u128, u64, u64)>)
        requires
            old(self).wf(),
        ensures
            final(self).wf(),
            final(self).user_ids() == old(self).user_ids(),
            r@ == nonzero_traffic(old(self)@, old(self).user_ids()),
            final(self)@ == traffic_reset(old(self)@, old(self).user_ids()),
    {
        let r = self.list_traffic();
        let ghost m0 = self@;
        let ghost all = self.uuids@;
        let ghost mut seen: Seq<u128> = all.subrange(0, 0);
        let mut i: usize = 0;
        proof {
            assert(self@ =~= traffic_reset(m0, seen));
        }
        while i < self.uuids.len()
            invariant
                old(self).wf(),
                all == old(self).uuids@,
                self.uuids@ == all,
                m0 == old(self)@,
                i <= all.len(),
                seen == all.subrange(0, i as int),
                self@ == traffic_reset(m0, seen),
                forall|u: u128| self.records@.contains_key(u) <==> all.contains(u),
            decreases all.len() - i,
        {
            let u = self.uuids[i];
            let ghost pre = seen;
            let ghost post = seen.push(u);
            let ghost recs0 = self.records@;
            let ghost v0 = self@;
            proof {
                assert(all.contains(u));
                assert(v0 == traffic_reset(m0, pre));
                assert forall|u2: u128| post.contains(u2) <==> (pre.contains(u2) || u2 == u) by {
                    if post.contains(u2) {
                        let j = choose|j: int| 0 <= j < post.len() && post[j] == u2;
                        if j < pre.len() {
                            assert(pre[j] == u2);
                        }
                    }
                    if pre.contains(u2) {
                        let j = choose|j: int| 0 <= j < pre.len() && pre[j] == u2;
                        assert(post[j] == u2);
                    }
                    assert(post[pre.len() as int] == u);
                }
            }
            let rec = self.records.remove(&u);
            match rec {
                Some(mut rec) => {
                    rec.tx = 0;
                    rec.rx = 0;
                    self.records.insert(u, rec);
                },
                None => {
                    assert(false);
                },
            }
            i = i + 1;
            proof {
                seen = post;
                assert(all.subrange(0, i as int) =~= post);
                assert forall|u2: u128|
                    self.records@.contains_key(u2) <==> all.contains(u2) by {
                    assert(v0.contains_key(u2) == recs0.contains_key(u2));
                    if u2 != u {
                        assert(self.records@.contains_key(u2) == recs0.contains_key(u2));
                    }
                }
                assert forall|u2: u128|
                    self@.contains_key(u2) implies self@[u2] == traffic_reset(m0, seen)[u2] by {
                    if u2 != u {
                        assert(self.records@[u2] == recs0[u2]);
                        assert(v0[u2] == recs0[u2]@);
                        assert(v0[u2] == traffic_reset(m0, pre)[u2]);
                    } else {
                        assert(seen.contains(u));
                        assert(v0[u] == recs0[u]@);
                        assert(v0[u] == traffic_reset(m0, pre)[u]);
                        assert(!pre.contains(u));
                        assert(v0[u] == m0[u]);
                        assert(self@[u] == self.records@[u]@);
                        assert(self@[u].online == m0[u].online && self@[u].clients == m0[u].clients
                            && self@[u].tx == 0 && self@[u].rx == 0);
                    }
                }
                assert(self@ =~= traffic_reset(m0, seen));
            }
        }
        proof {
            assert(all.subrange(0, all.len() as int) =~= all);
            assert(seen == all);
            assert forall|u: u128| self.records@.contains_key(u) <==> self.uuids@.contains(u) by {}
        }
        r
    }
}

/// Copies a user id list.
fn clone_ids(v: &Vec<u128>) -> (r: Vec<u128>)
    ensures
        r@ == v@,
{
    let mut out: Vec<u128> = Vec::new();
    let mut i: usize = 0;
    while i < v.len()
        invariant
            i <= v@.len(),
            out@ == v@.subrange(0, i as int),
        decreases v@.len() - i,
    {
        out.push(v[i]);
        i = i + 1;
        assert(out@ =~= v@.subrange(0, i as int));
    }
    assert(out@ =~= v@);
    out
}

/// Copies a client list.
fn copy_clients(v: &Vec<ClientEntry>) -> (r: Vec<ClientEntry>)
    ensures
        r@ == v@,
{
    let mut out: Vec<ClientEntry> = Vec::new();
    let mut i: usize = 0;
    while i < v.len()
        invariant
            i <= v@.len(),
            out@ == v@.subrange(0, i as int),
        decreases v@.len() - i,
    {
        out.push(v[i]);
        i = i + 1;
        assert(out@ =~= v@.subrange(0, i as int));
    }
    assert(out@ =~= v@);
    out
}

/// The client list without the entries of connection `id`.
fn drop_client(v: Vec<ClientEntry>, id: u32) -> (r: Vec<ClientEntry>)
    ensures
        r@ == without_client(v@, id),
{
    let mut out: Vec<ClientEntry> = Vec::new();
    let mut i: usize = 0;
    proof {
        assert(without_client(v@.subrange(0, 0), id) =~= Seq::<ClientEntry>::empty());
    }
    while i < v.len()
        invariant
            i <= v@.len(),
            out@ == without_client(v@.subrange(0, i as int), id),
        decreases v@.len() - i,
    {
        let e = v[i];
        if e.0 != id {
            out.push(e);
        }
        i = i + 1;
        proof {
            let post = v@.subrange(0, i as int);
            assert(post.drop_last() =~= v@.subrange(0, i as int - 1));
            assert(post.last() == v@[i - 1]);
        }
    }
    proof {
        assert(v@.subrange(0, v@.len() as int) =~= v@);
    }
    out
}

/// Whether the admin endpoints refuse a request: whenever a bearer secret
/// is configured and the request's token is absent or differs from it.
/// With no secret configured the endpoints are open.
pub fn bearer_rejects(secret: &str, token: Option<&str>) -> (r: bool)
    ensures
        r == (secret.spec_bytes().len() != 0 && (token is None || secret.spec_bytes()
            != token.unwrap().spec_bytes())),
{
    if secret.as_bytes().len() == 0 {
        return false;
    }
    match token {
        Some(t) => !bytes_eq(secret.as_bytes(), t.as_bytes()),
        None => true,
    }
}

/// Exact byte-string equality.
pub fn bytes_eq(a: &[u8], b: &[u8]) -> (r: bool)
    ensures
        r == (a@ == b@),
{
    if a.len() != b.len() {
        return false;
    }
    let mut i: usize = 0;
    while i < a.len()
        invariant
            a@.len() == b@.len(),
            i <= a@.len(),
            forall|j: int| 0 <= j < i ==> a@[j] == b@[j],
        decreases a@.len() - i,
    {
        if a[i] != b[i] {
            return false;
        }
        i = i + 1;
    }
    proof {
        assert(a@ =~= b@);
    }
    true
}

} // verus!
