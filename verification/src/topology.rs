//! The primary's registry of replica addresses.
//!
//! A [`ReplicaSet`] collects the `host:port` addresses of every replica
//! that has joined. It only grows — there is no leave or liveness
//! eviction — and it does not deduplicate: a stale or duplicate address
//! merely makes the broadcast attempt one more send, which may fail
//! silently. Its mathematical value is the sequence of addresses in
//! registration order.

use vstd::prelude::*;

verus! {

/// The addresses registered with the primary, in arrival order.
pub struct ReplicaSet {
    replicas: Vec<String>,
}

impl View for ReplicaSet {
    type V = Seq<Seq<char>>;

    closed spec fn view(&self) -> Seq<Seq<char>> {
        self.replicas.deep_view()
    }
}

impl ReplicaSet {
    /// Create an empty registry.
    pub fn new() -> (r: ReplicaSet)
        ensures
            r@ == Seq::<Seq<char>>::empty(),
    {
        let r = ReplicaSet { replicas: Vec::new() };
        proof {
            assert(r@ =~= Seq::<Seq<char>>::empty());
        }
        r
    }

    /// Append one replica address, unconditionally: no deduplication,
    /// no reachability check.
    pub fn register(&mut self, replica_addr: String)
        ensures
            final(self)@ == old(self)@.push(replica_addr@),
    {
        self.replicas.push(replica_addr);
        proof {
            assert(self@ =~= old(self)@.push(replica_addr@));
        }
    }

    /// A copy of all registered addresses, in registration order, safe
    /// to walk without holding any lock on the registry.
    pub fn iter(&self) -> (r: Vec<String>)
        ensures
            r.deep_view() == self@,
    {
        let n = self.replicas.len();
        let mut r: Vec<String> = Vec::new();
        let mut i: usize = 0;
        while i < n
            invariant
                i <= n,
                n == self.replicas@.len(),
                r.deep_view() =~= self@.take(i as int),
            decreases n - i,
        {
            let ghost old_dv = r.deep_view();
            let a = self.replicas[i].clone();
            r.push(a);
            proof {
                assert(a@ == self@[i as int]);
                assert(r.deep_view() =~= old_dv.push(a@));
                assert(r.deep_view() =~= self@.take(i as int + 1));
            }
            i = i + 1;
        }
        proof {
            assert(r.deep_view() =~= self@);
        }
        r
    }
}

} // verus!
