//! A view over a received append request.

use vstd::prelude::*;

use super::wire::AppendEntries;
use crate::protocol::message::AppendEntriesEntryIter;
use crate::types::{LogIndex, PeerId, Term};

verus! {

/// An append request and the bytes of its entries.
#[derive(Clone, Copy, Debug)]
pub struct AppendEntriesView<'a> {
    wire: AppendEntries,
    payload: &'a [u8],
}

impl<'a> AppendEntriesView<'a> {
    /// The fixed part of the request.
    pub closed spec fn fixed(self) -> AppendEntries {
        self.wire
    }

    /// The bytes of the entries.
    pub closed spec fn entry_bytes(self) -> Seq<u8> {
        self.payload@
    }

    pub fn new(wire: AppendEntries, payload: &'a [u8]) -> (r: Self)
        ensures
            r.fixed() == wire,
            r.entry_bytes() == payload@,
    {
        AppendEntriesView { wire, payload }
    }

    pub fn term(&self) -> (r: Term)
        ensures
            r == Term(self.fixed().term),
    {
        Term(self.wire.term)
    }

    pub fn leader_id(&self) -> (r: PeerId)
        ensures
            r == PeerId(self.fixed().leader_id),
    {
        PeerId(self.wire.leader_id)
    }

    pub fn prev_log_index(&self) -> (r: LogIndex)
        ensures
            r == LogIndex(self.fixed().prev_log_index),
    {
        LogIndex(self.wire.prev_log_index)
    }

    pub fn prev_log_term(&self) -> (r: Term)
        ensures
            r == Term(self.fixed().prev_log_term),
    {
        Term(self.wire.prev_log_term)
    }

    pub fn leader_commit(&self) -> (r: LogIndex)
        ensures
            r == LogIndex(self.fixed().leader_commit),
    {
        LogIndex(self.wire.leader_commit)
    }

    pub fn entry_count(&self) -> (r: u32)
        ensures
            r == self.fixed().entry_count,
    {
        self.wire.entry_count
    }

    /// Reads the entries in order, each from the bytes when it is asked for.
    pub fn entries(&self) -> (r: Option<AppendEntriesEntryIter<'a>>)
        ensures
            r matches Some(it) && it.rest() == self.entry_bytes() && it.left()
                == self.fixed().entry_count,
    {
        let count: usize = self.entry_count() as usize;
        Some(AppendEntriesEntryIter::new(self.payload, count))
    }

    pub fn payload(&self) -> (r: &'a [u8])
        ensures
            r@ == self.entry_bytes(),
    {
        self.payload
    }

    pub fn wire(&self) -> (r: AppendEntries)
        ensures
            r == self.fixed(),
    {
        self.wire
    }
}

} // verus!
