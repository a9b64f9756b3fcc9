//! The replica node's service logic.
//!
//! A [`Replica`] owns the local copy of the [`KVStore`]. The caller
//! keeps the sockets: it reads the single line of each inbound push and
//! hands it to [`Replica::apply_line`]; during a join it sends the
//! `JOIN` line, then feeds every line the primary streams back to
//! [`Replica::apply_snapshot_line`] until that reports the transfer
//! complete or the connection closes. A join that fails to connect or
//! write applies nothing, so the local state is untouched.

use crate::protocol::{parse_spec, MessageView, Message};
use crate::store::KVStore;
use vstd::prelude::*;

verus! {

/// The replica's state: its local store.
pub struct Replica {
    pub store: KVStore,
}

impl Replica {
    /// The store's invariant holds.
    pub open spec fn wf(self) -> bool {
        self.store.wf()
    }

    /// A fresh replica: empty store.
    pub fn new() -> (r: Replica)
        ensures
            r.wf(),
            r.store@ == Map::<Seq<char>, Seq<char>>::empty(),
    {
        Replica { store: KVStore::new() }
    }

    /// A client read: straight from the local store.
    pub fn handle_get(&self, key: &str) -> (r: Option<String>)
        requires
            self.wf(),
        ensures
            (match r {
                Some(v) => self.store@.contains_key(key@) && v@ == self.store@[key@],
                None => !self.store@.contains_key(key@),
            }),
    {
        self.store.get(key)
    }

    /// One inbound connection: the single pushed line. A `PUT` is
    /// applied to the local store; any other line, or one that parses
    /// to nothing, is dropped silently.
    pub fn apply_line(&mut self, line: &str)
        requires
            old(self).wf(),
        ensures
            final(self).wf(),
            (match parse_spec(line@) {
                Some(MessageView::Put { key, value }) => final(self).store@ == old(
                    self,
                ).store@.insert(key, value),
                _ => final(self).store@ == old(self).store@,
            }),
    {
        match Message::parse(line) {
            Some(Message::Put { key, value }) => {
                self.store.put(key, value);
            },
            _ => {},
        }
    }

    /// One line of the snapshot stream a join receives: apply a `PUT`,
    /// report completion at `SNAPSHOT_END`, drop anything else. The
    /// caller stops reading when this returns true or the stream ends.
    pub fn apply_snapshot_line(&mut self, line: &str) -> (done: bool)
        requires
            old(self).wf(),
        ensures
            final(self).wf(),
            (match parse_spec(line@) {
                Some(MessageView::Put { key, value }) => final(self).store@ == old(
                    self,
                ).store@.insert(key, value) && !done,
                Some(MessageView::SnapshotEnd) => final(self).store@ == old(self).store@ && done,
                _ => final(self).store@ == old(self).store@ && !done,
            }),
    {
        match Message::parse(line) {
            Some(Message::Put { key, value }) => {
                self.store.put(key, value);
                false
            },
            Some(Message::SnapshotEnd) => true,
            _ => false,
        }
    }
}

} // verus!
