//! Frames and messages exchanged between peers.

pub mod codec;
pub mod message;
pub mod view;

pub use codec::decode::decode_message;
pub use codec::encode::contiguous::encode_message_to_bytes;
pub use codec::encode::vectored::{
    encode_append_entries_vectored, encode_message_vectored, encode_message_vectored_with_group,
};
pub use codec::view::AppendEntriesView;
pub use codec::wire::{
    AppendEntries, AppendEntriesResp, EntryHeader, InstallSnapshot, InstallSnapshotResp,
    RaftFrameHeader, RequestVote, RequestVoteResp, TimeoutNow, KIND_APPEND_ENTRIES,
    KIND_APPEND_ENTRIES_RESP, KIND_APPEND_ENTRIES_SEEDED, KIND_CUSTOM, KIND_CUSTOM_RESPONSE,
    KIND_INSTALL_SNAPSHOT, KIND_INSTALL_SNAPSHOT_RESP, KIND_PRE_VOTE, KIND_PRE_VOTE_RESP,
    KIND_REQUEST_VOTE, KIND_REQUEST_VOTE_RESP, KIND_TIMEOUT_NOW, RAFT_FRAME_HEADER_SIZE,
    RAFT_MAGIC, RAFT_VERSION,
};
pub use message::{InboundRaftMessage, RaftMessage};
