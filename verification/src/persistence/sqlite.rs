//! Rows of the transfer history kept in the local database.
use vstd::prelude::*;

verus! {

/// A transfer session: one batch of files sent to or received from a peer.
#[derive(Debug, Clone, PartialEq, Eq)]
pub struct SessionData {
    pub session_id: String,
    pub session_name: String,
    pub total_files: i64,
    pub completed_files: i64,
    pub total_size: u64,
    pub bytes_transferred: u64,
    pub peer_device_id: String,
    pub peer_device_name: String,
    pub direction: String,
    pub status: String,
    pub created_at: i64,
    pub updated_at: i64,
}

/// One file of a session and how far its transfer has got.
#[derive(Debug, Clone, PartialEq, Eq)]
pub struct TransferData {
    pub session_id: Option<String>,
    pub file_id: String,
    pub file_name: String,
    pub relative_path: String,
    pub file_path: String,
    pub file_size: u64,
    pub file_hash: String,
    pub peer_device_id: String,
    pub peer_device_name: String,
    pub direction: String,
    pub status: String,
    pub total_chunks: i64,
    pub completed_chunks: i64,
    pub created_at: i64,
    pub updated_at: i64,
}

/// One chunk of a file and its state.
#[derive(Debug, Clone, PartialEq, Eq)]
pub struct ChunkData {
    pub file_id: String,
    pub chunk_index: i64,
    pub chunk_size: i64,
    pub chunk_hash: String,
    pub status: String,
}

} // verus!
