//! The primary node's service logic.
//!
//! A [`Primary`] owns the authoritative [`KVStore`] and the
//! [`ReplicaSet`]. It turns client writes into local state changes plus
//! a broadcast plan, and inbound connection lines into registrations
//! plus snapshot text. All sockets stay with the caller: it reads the
//! single line of each inbound connection, hands it here, and writes
//! whatever bytes come back; it performs the planned sends and swallows
//! per-address failures, so one unreachable replica never blocks the
//! write, the caller, or delivery to the other replicas.

use crate::protocol::{parse_spec, put_line, snapshot_text, Message, MessageView};
use crate::store::KVStore;
use crate::topology::ReplicaSet;
use vstd::prelude::*;

verus! {

/// The primary's state: store plus registry.
pub struct Primary {
    pub store: KVStore,
    pub replicas: ReplicaSet,
}

impl Primary {
    /// The store's invariant holds.
    pub open spec fn wf(self) -> bool {
        self.store.wf()
    }

    /// A fresh primary: empty store, no replicas.
    pub fn new() -> (r: Primary)
        ensures
            r.wf(),
            r.store@ == Map::<Seq<char>, Seq<char>>::empty(),
            r.replicas@ == Seq::<Seq<char>>::empty(),
    {
        Primary { store: KVStore::new(), replicas: ReplicaSet::new() }
    }

    /// A client write: apply the pair to the local store first, then
    /// plan the broadcast — one `(address, wire bytes)` pair per
    /// registered replica, in registration order, every pair carrying
    /// the same formatted `PUT` line. The caller performs the sends,
    /// one address at a time, and ignores each failure by itself.
    pub fn handle_put(&mut self, key: String, value: String) -> (plan: Vec<(String, String)>)
        requires
            old(self).wf(),
        ensures
            final(self).wf(),
            final(self).store@ == old(self).store@.insert(key@, value@),
            final(self).replicas@ == old(self).replicas@,
            plan.deep_view().len() == final(self).replicas@.len(),
            forall|i: int|
                0 <= i < plan.deep_view().len() ==> #[trigger] plan.deep_view()[i] == (
                final(self).replicas@[i],
                put_line(key@, value@),
                ),
    {
        let msg = Message::Put { key: key.clone(), value: value.clone() };
        let payload = msg.format();
        proof {
            assert(payload@ == put_line(key@, value@));
        }
        self.store.put(key, value);
        let addrs = self.replicas.iter();
        let n = addrs.len();
        let mut plan: Vec<(String, String)> = Vec::new();
        let mut i: usize = 0;
        while i < n
            invariant
                i <= n,
                n == addrs@.len(),
                addrs.deep_view() == self.replicas@,
                payload@ == put_line(key@, value@),
                plan.deep_view().len() == i,
                forall|j: int|
                    0 <= j < i ==> #[trigger] plan.deep_view()[j] == (
                    addrs.deep_view()[j],
                    payload@,
                    ),
            decreases n - i,
        {
            let ghost old_dv = plan.deep_view();
            let a = addrs[i].clone();
            let p = payload.clone();
            plan.push((a, p));
            proof {
                assert(plan.deep_view() =~= old_dv.push((a@, p@)));
                assert(p@ == payload@);
                assert(a@ == addrs.deep_view()[i as int]);
            }
            i = i + 1;
        }
        plan
    }

    /// A client read: straight from the local store.
    pub fn handle_get(&self, key: &str) -> (r: Option<String>)
        requires
            self.wf(),
        ensures
            (match r {
                Some(v) => self.store@.contains_key(key@) && v@ == self.store@[key@],
                None => !self.store@.contains_key(key@),
            }),
    {
        self.store.get(key)
    }

    /// One inbound connection: the single line it carried. A `JOIN`
    /// registers the sender's address and returns the snapshot text to
    /// write back on the same connection — every stored entry as a
    /// `PUT` line, then `SNAPSHOT_END`. Any other line, or one that
    /// parses to nothing, changes nothing and answers nothing.
    pub fn handle_join_line(&mut self, line: &str) -> (r: Option<String>)
        requires
            old(self).wf(),
        ensures
            final(self).wf(),
            final(self).store == old(self).store,
            (match parse_spec(line@) {
                Some(MessageView::Join { replica_addr }) => {
                    &&& final(self).replicas@ == old(self).replicas@.push(replica_addr)
                    &&& (r matches Some(text) && text@ == snapshot_text(old(self).store.entries()))
                },
                _ => final(self).replicas@ == old(self).replicas@ && r is None,
            }),
    {
        match Message::parse(line) {
            Some(Message::Join { replica_addr }) => {
                self.replicas.register(replica_addr);
                let entries = self.store.keys();
                let snap = Message::Snapshot { entries };
                let text = snap.format();
                Some(text)
            },
            _ => None,
        }
    }
}

/// Broadcast reaches every registered replica with byte-identical
/// payloads: in the plan `handle_put` returns after addresses were
/// registered, each pair addresses one replica, in registration order,
/// and all pairs carry the same formatted line. The sends themselves
/// are the caller's, one connection per address, so one unreachable
/// address cannot remove another's pair from the plan.
pub proof fn lemma_broadcast_uniform(
    plan: Seq<(Seq<char>, Seq<char>)>,
    addrs: Seq<Seq<char>>,
    key: Seq<char>,
    value: Seq<char>,
)
    requires
        plan.len() == addrs.len(),
        forall|i: int| 0 <= i < plan.len() ==> #[trigger] plan[i] == (addrs[i], put_line(
            key,
            value,
        )),
    ensures
        forall|i: int, j: int|
            0 <= i < plan.len() && 0 <= j < plan.len() ==> #[trigger] plan[i].1 == #[trigger] plan[j].1,
        forall|i: int| 0 <= i < plan.len() ==> #[trigger] plan[i].0 == addrs[i],
{
}

} // verus!
