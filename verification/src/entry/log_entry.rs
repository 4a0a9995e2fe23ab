use vstd::prelude::*;

use crate::types::{LogIndex, Term};

verus! {

/// The bytes a client proposed.
#[derive(Clone, Copy, Debug, PartialEq, Eq)]
pub struct EntryPayload<'a>(pub &'a [u8]);

/// One entry of the replicated log.
#[derive(Clone, Copy, Debug, PartialEq, Eq)]
pub struct LogEntry<'a> {
    pub term: Term,
    pub index: LogIndex,
    pub payload: EntryPayload<'a>,
}

/// What a [`LogEntry`] stands for.
#[verifier::ext_equal]
pub struct EntryRecord {
    pub term: Term,
    pub index: LogIndex,
    pub payload: Seq<u8>,
}

impl<'a> View for LogEntry<'a> {
    type V = EntryRecord;

    open spec fn view(&self) -> EntryRecord {
        EntryRecord { term: self.term, index: self.index, payload: self.payload.0@ }
    }
}

} // verus!
