//! The messages two devices exchange during a transfer session.
use vstd::prelude::*;

verus! {

/// Kind of a protocol message; its position in this list is the type byte of a frame.
#[derive(Debug, Clone, Copy, PartialEq, Eq)]
pub enum MessageType {
    Discovery,
    DiscoveryResponse,
    Handshake,
    FileListMetadata,
    FileMetadata,
    ChunkRequest,
    ChunkData,
    ChunkAck,
    TransferStart,
    TransferPause,
    TransferCancel,
    TransferComplete,
    SessionComplete,
    CheckResume,
    ResumeInfo,
}

/// The type byte that a frame carries for each kind of message.
pub open spec fn type_byte(t: MessageType) -> u8 {
    match t {
        MessageType::Discovery => 0,
        MessageType::DiscoveryResponse => 1,
        MessageType::Handshake => 2,
        MessageType::FileListMetadata => 3,
        MessageType::FileMetadata => 4,
        MessageType::ChunkRequest => 5,
        MessageType::ChunkData => 6,
        MessageType::ChunkAck => 7,
        MessageType::TransferStart => 8,
        MessageType::TransferPause => 9,
        MessageType::TransferCancel => 10,
        MessageType::TransferComplete => 11,
        MessageType::SessionComplete => 12,
        MessageType::CheckResume => 13,
        MessageType::ResumeInfo => 14,
    }
}

impl MessageType {
    /// The type byte written into a frame for this kind of message.
    pub fn type_byte(&self) -> (b: u8)
        ensures
            b == type_byte(*self),
    {
        match self {
            MessageType::Discovery => 0,
            MessageType::DiscoveryResponse => 1,
            MessageType::Handshake => 2,
            MessageType::FileListMetadata => 3,
            MessageType::FileMetadata => 4,
            MessageType::ChunkRequest => 5,
            MessageType::ChunkData => 6,
            MessageType::ChunkAck => 7,
            MessageType::TransferStart => 8,
            MessageType::TransferPause => 9,
            MessageType::TransferCancel => 10,
            MessageType::TransferComplete => 11,
            MessageType::SessionComplete => 12,
            MessageType::CheckResume => 13,
            MessageType::ResumeInfo => 14,
        }
    }
}

/// Presence announcement of a device on the local network.
#[derive(Debug, Clone, PartialEq, Eq)]
pub struct DiscoveryMessage {
    pub device_id: String,
    pub device_name: String,
    pub device_type: String,
    pub tcp_port: u16,
    pub timestamp: u64,
}

/// Identification exchanged when a connection opens.
#[derive(Debug, Clone, PartialEq, Eq)]
pub struct HandshakeMessage {
    pub device_id: String,
    pub device_name: String,
    pub device_type: String,
}

/// Description of one file of a session.
#[derive(Debug, Clone, PartialEq, Eq)]
pub struct FileMetadata {
    pub file_id: String,
    pub file_name: String,
    pub relative_path: String,
    pub file_size: u64,
    pub file_hash: String,
    pub total_chunks: i64,
    pub chunk_size: usize,
}

/// Description of a whole session: every file that will be sent.
#[derive(Debug, Clone, PartialEq, Eq)]
pub struct FileListMetadata {
    pub session_id: String,
    pub session_name: String,
    pub total_files: i64,
    pub total_size: u64,
    pub files: Vec<FileMetadata>,
}

/// The receiver asks for one chunk of a file.
#[derive(Debug, Clone, PartialEq, Eq)]
pub struct ChunkRequest {
    pub file_id: String,
    pub chunk_index: i64,
}

/// One chunk of a file with its CRC-32 written in hexadecimal.
#[derive(Debug, Clone, PartialEq, Eq)]
pub struct ChunkData {
    pub file_id: String,
    pub chunk_index: i64,
    pub chunk_size: usize,
    pub chunk_hash: String,
    pub data: Vec<u8>,
}

/// The receiver's answer to a chunk.
#[derive(Debug, Clone, PartialEq, Eq)]
pub struct ChunkAck {
    pub file_id: String,
    pub chunk_index: i64,
    pub success: bool,
    pub error: Option<String>,
}

/// A request to abandon a transfer.
#[derive(Debug, Clone, PartialEq, Eq)]
pub struct TransferCancel {
    pub transfer_id: String,
    pub reason: Option<String>,
}

/// A file has been sent completely.
#[derive(Debug, Clone, PartialEq, Eq)]
pub struct TransferComplete {
    pub file_id: String,
    pub file_hash: String,
}

/// Every file of a session has been sent.
#[derive(Debug, Clone, PartialEq, Eq)]
pub struct SessionComplete {
    pub session_id: String,
}

/// The receiver asks which chunks of a file are already done.
#[derive(Debug, Clone, PartialEq, Eq)]
pub struct CheckResume {
    pub file_id: String,
}

/// The chunks of a file that are already done.
#[derive(Debug, Clone, PartialEq, Eq)]
pub struct ResumeInfo {
    pub file_id: String,
    pub completed_chunks: Vec<i64>,
}

/// Body of a message.
#[derive(Debug, Clone, PartialEq, Eq)]
pub enum MessagePayload {
    Discovery(DiscoveryMessage),
    DiscoveryResponse(DiscoveryMessage),
    Handshake(HandshakeMessage),
    FileListMetadata(FileListMetadata),
    FileMetadata(FileMetadata),
    ChunkRequest(ChunkRequest),
    ChunkData(ChunkData),
    ChunkAck(ChunkAck),
    TransferStart,
    TransferPause,
    TransferCancel(TransferCancel),
    TransferComplete(TransferComplete),
    SessionComplete(SessionComplete),
    CheckResume(CheckResume),
    ResumeInfo(ResumeInfo),
}

/// A protocol message: its kind and its body.
#[derive(Debug, Clone, PartialEq, Eq)]
pub struct Message {
    pub message_type: MessageType,
    pub payload: MessagePayload,
}

impl Message {
    /// Pairs a kind with a body.
    pub fn new(message_type: MessageType, payload: MessagePayload) -> (m: Self)
        ensures
            m.message_type == message_type,
            m.payload == payload,
    {
        Self { message_type, payload }
    }
}

impl FileMetadata {
    /// A copy of the metadata.
    pub(crate) fn duplicate(&self) -> (r: FileMetadata)
        ensures
            r == *self,
    {
        FileMetadata {
            file_id: self.file_id.clone(),
            file_name: self.file_name.clone(),
            relative_path: self.relative_path.clone(),
            file_size: self.file_size,
            file_hash: self.file_hash.clone(),
            total_chunks: self.total_chunks,
            chunk_size: self.chunk_size,
        }
    }
}

} // verus!
