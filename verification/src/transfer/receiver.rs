//! The receiving side of a session, as a state machine: it answers a file list by asking,
//! file by file, which chunks are already done, requests the others one at a time, checks
//! each chunk that arrives and acknowledges it. The caller does the network and disk work.
use vstd::prelude::*;
use crate::file::merger::{merge_decision, FileMerger};
use crate::file::splitter::chunk_offset;
use crate::protocol::message::{
    CheckResume, ChunkData, ChunkRequest, FileListMetadata, ResumeInfo, TransferCancel, FileMetadata, Message, MessagePayload, MessageType,
};
use crate::transfer::worker::{claimed_crc32, expected_crc32, first_missing, first_missing_chunk};
use crate::utils::hash::{calculate_crc32, crc32_of};
use crate::utils::text::{hex_lower, lemma_hex_roundtrip};

verus! {

/// What the receiver waits for.
#[derive(Debug)]
pub enum ReceiverPhase {
    /// The next message of the connection.
    AwaitMessage,
    /// The question about file `i`'s done chunks has been handed out to be sent.
    CheckResumeSent(usize),
    /// The answer about file `i`'s done chunks.
    AwaitResumeInfo(usize),
    /// The target of file `i` is being opened.
    Opening(usize),
    /// The request for chunk `j` of file `i` has been handed out to be sent.
    RequestSent(usize, i64),
    /// The answer to the request for chunk `j` of file `i`.
    AwaitChunk(usize, i64),
    /// A chunk that arrived for request `j` of file `i`, carrying chunk index `k`, is being written.
    Writing(usize, i64, i64),
    /// The acknowledgement after request `j` of file `i` has been handed out to be sent.
    AckSent(usize, i64),
    /// The transfer named in a cancellation is being cleaned up.
    Cancelling,
    /// Nothing more.
    Done,
}

/// What happened since the last step.
#[derive(Debug)]
pub enum ReceiverEvent {
    Sent,
    /// The next message from the peer, or `None` when the stream ended.
    Received(Option<Message>),
    /// The target file was opened at its full size.
    Opened,
    /// The chunk was written.
    Written,
    /// The cancelled transfer was cleaned up.
    Cancelled,
}

/// Why receiving stops with an error.
#[derive(Debug, Clone, Copy, PartialEq, Eq)]
pub enum ReceiveError {
    /// A chunk with a correct checksum names a position at or past the end of its file.
    ChunkOutOfRange,
    /// A chunk with a correct checksum names a position beyond what a `u64` offset can hold.
    ChunkOffsetOverflow,
}

/// What to do next.
#[derive(Debug)]
pub enum ReceiverAction {
    Send(Message),
    /// Send the acknowledgement of a chunk (see `chunk_ack_message`).
    Acknowledge { file_id: String, chunk_index: i64, written: bool },
    Receive,
    /// Open the target of this file at its full size. With `keep`, the transfer resumes: what
    /// the target already holds stays (the chunks named done were written there before);
    /// without it, the target is created anew.
    OpenFile { file: FileMetadata, keep: bool },
    /// Write these bytes at this offset of the current file.
    WriteChunk { offset: u64, data: Vec<u8> },
    /// Forget the named transfer and remove what was received of it.
    Cancel(String),
    Fail(ReceiveError),
    Finished,
}

pub open spec fn phase_fits(files: Seq<FileMetadata>, phase: ReceiverPhase) -> bool {
    match phase {
        ReceiverPhase::CheckResumeSent(i) => i < files.len(),
        ReceiverPhase::AwaitResumeInfo(i) => i < files.len(),
        ReceiverPhase::Opening(i) => i < files.len(),
        ReceiverPhase::RequestSent(i, j) => i < files.len() && 0 <= j < files[i as int].total_chunks,
        ReceiverPhase::AwaitChunk(i, j) => i < files.len() && 0 <= j < files[i as int].total_chunks,
        ReceiverPhase::Writing(i, j, _) => i < files.len() && 0 <= j < files[i as int].total_chunks,
        ReceiverPhase::AckSent(i, j) => i < files.len() && 0 <= j < files[i as int].total_chunks,
        _ => true,
    }
}

/// A state of the receiver: the files of the current session, the done chunks of the current
/// file, and the phase.
pub type ReceiverState = (Seq<FileMetadata>, Seq<i64>, ReceiverPhase);

/// File `i`'s turn: ask which of its chunks are done; past the last file, go back to
/// listening for messages.
pub open spec fn ask_resume(files: Seq<FileMetadata>, done: Seq<i64>, i: nat) -> (ReceiverState, ReceiverAction) {
    if i < files.len() {
        (
            (files, done, ReceiverPhase::CheckResumeSent(i as usize)),
            ReceiverAction::Send(Message {
                message_type: MessageType::CheckResume,
                payload: MessagePayload::CheckResume(CheckResume { file_id: files[i as int].file_id }),
            }),
        )
    } else {
        ((files, done, ReceiverPhase::AwaitMessage), ReceiverAction::Receive)
    }
}

/// Request the first chunk of file `i`, from `from` on, that is not done; when there is none,
/// move on to the next file.
pub open spec fn request_from(files: Seq<FileMetadata>, done: Seq<i64>, i: nat, from: i64) -> (ReceiverState, ReceiverAction) {
    match first_missing(files[i as int].total_chunks, done, from) {
        Some(j) => (
            (files, done, ReceiverPhase::RequestSent(i as usize, j)),
            ReceiverAction::Send(Message {
                message_type: MessageType::ChunkRequest,
                payload: MessagePayload::ChunkRequest(ChunkRequest { file_id: files[i as int].file_id, chunk_index: j }),
            }),
        ),
        None => ask_resume(files, done, i + 1),
    }
}

/// What the receiver does with the answer to request `j` of file `i`.
pub open spec fn on_chunk(files: Seq<FileMetadata>, done: Seq<i64>, i: nat, j: i64, m: Option<Message>) -> (ReceiverState, ReceiverAction) {
    let f = files[i as int];
    match m {
        Some(msg) => if msg.message_type == MessageType::ChunkData {
            match msg.payload {
                MessagePayload::ChunkData(c) => {
                    let crc = claimed_crc32(c.chunk_hash@);
                    if crc32_of(c.data@) != crc {
                        (
                            (files, done, ReceiverPhase::AckSent(i as usize, j)),
                            ReceiverAction::Acknowledge { file_id: f.file_id, chunk_index: c.chunk_index, written: false },
                        )
                    } else if chunk_offset(c.chunk_index, f.chunk_size as nat) > u64::MAX {
                        ((files, done, ReceiverPhase::Done), ReceiverAction::Fail(ReceiveError::ChunkOffsetOverflow))
                    } else {
                        match merge_decision(f.file_size, f.chunk_size, c.chunk_index, c.data@, crc) {
                            Ok(Some(offset)) => (
                                (files, done, ReceiverPhase::Writing(i as usize, j, c.chunk_index)),
                                ReceiverAction::WriteChunk { offset, data: c.data },
                            ),
                            _ => ((files, done, ReceiverPhase::Done), ReceiverAction::Fail(ReceiveError::ChunkOutOfRange)),
                        }
                    }
                },
                _ => request_from(files, done, i, (j + 1) as i64),
            }
        } else if msg.message_type == MessageType::TransferCancel && msg.payload is TransferCancel {
            ((files, done, ReceiverPhase::Cancelling), ReceiverAction::Cancel(msg.payload->TransferCancel_0.transfer_id))
        } else {
            request_from(files, done, i, (j + 1) as i64)
        },
        None => request_from(files, done, i, (j + 1) as i64),
    }
}

/// One step of the receiver. An event the phase does not wait for ends the session.
pub open spec fn receiver_next(files: Seq<FileMetadata>, done: Seq<i64>, phase: ReceiverPhase, event: ReceiverEvent) -> (ReceiverState, ReceiverAction) {
    match (phase, event) {
        (ReceiverPhase::AwaitMessage, ReceiverEvent::Received(m)) => match m {
            None => ((files, done, ReceiverPhase::Done), ReceiverAction::Finished),
            Some(msg) => if msg.message_type == MessageType::FileListMetadata && msg.payload is FileListMetadata {
                ask_resume(msg.payload->FileListMetadata_0.files@, done, 0)
            } else if msg.message_type == MessageType::TransferCancel && msg.payload is TransferCancel {
                ((files, done, ReceiverPhase::Cancelling), ReceiverAction::Cancel(msg.payload->TransferCancel_0.transfer_id))
            } else {
                ((files, done, ReceiverPhase::AwaitMessage), ReceiverAction::Receive)
            },
        },
        (ReceiverPhase::CheckResumeSent(i), ReceiverEvent::Sent) => ((files, done, ReceiverPhase::AwaitResumeInfo(i)), ReceiverAction::Receive),
        (ReceiverPhase::AwaitResumeInfo(i), ReceiverEvent::Received(m)) => match m {
            Some(msg) => if msg.message_type == MessageType::ResumeInfo && msg.payload is ResumeInfo {
                (
                    (files, msg.payload->ResumeInfo_0.completed_chunks@, ReceiverPhase::Opening(i)),
                    ReceiverAction::OpenFile {
                        file: files[i as int],
                        keep: msg.payload->ResumeInfo_0.completed_chunks@.len() > 0,
                    },
                )
            } else if msg.message_type == MessageType::TransferCancel && msg.payload is TransferCancel {
                ((files, done, ReceiverPhase::Cancelling), ReceiverAction::Cancel(msg.payload->TransferCancel_0.transfer_id))
            } else {
                ask_resume(files, done, (i + 1) as nat)
            },
            None => ask_resume(files, done, (i + 1) as nat),
        },
        (ReceiverPhase::Opening(i), ReceiverEvent::Opened) => request_from(files, done, i as nat, 0),
        (ReceiverPhase::RequestSent(i, j), ReceiverEvent::Sent) => ((files, done, ReceiverPhase::AwaitChunk(i, j)), ReceiverAction::Receive),
        (ReceiverPhase::AwaitChunk(i, j), ReceiverEvent::Received(m)) => on_chunk(files, done, i as nat, j, m),
        (ReceiverPhase::Writing(i, j, k), ReceiverEvent::Written) => (
            (files, done, ReceiverPhase::AckSent(i, j)),
            ReceiverAction::Acknowledge { file_id: files[i as int].file_id, chunk_index: k, written: true },
        ),
        (ReceiverPhase::AckSent(i, j), ReceiverEvent::Sent) => request_from(files, done, i as nat, (j + 1) as i64),
        (ReceiverPhase::Cancelling, ReceiverEvent::Cancelled) => ((files, done, ReceiverPhase::Done), ReceiverAction::Finished),
        _ => ((files, done, ReceiverPhase::Done), ReceiverAction::Finished),
    }
}


/// A receiving connection in progress.
pub struct ReceiverSession {
    files: Vec<FileMetadata>,
    done: Vec<i64>,
    phase: ReceiverPhase,
}

impl ReceiverSession {
    #[verifier::type_invariant]
    spec fn wf(self) -> bool {
        phase_fits(self.files@, self.phase)
    }

    pub closed spec fn state(&self) -> ReceiverState {
        (self.files@, self.done@, self.phase)
    }

    /// A receiver that listens for the first message; `Receive` is its first action.
    pub fn new() -> (r: (Self, ReceiverAction))
        ensures
            r.0.state() == (Seq::<FileMetadata>::empty(), Seq::<i64>::empty(), ReceiverPhase::AwaitMessage),
            r.1 == ReceiverAction::Receive,
    {
        (ReceiverSession { files: Vec::new(), done: Vec::new(), phase: ReceiverPhase::AwaitMessage }, ReceiverAction::Receive)
    }

    fn ask_resume(files: Vec<FileMetadata>, done: Vec<i64>, i: usize) -> (r: (Self, ReceiverAction))
        ensures
            (r.0.state(), r.1) == ask_resume(files@, done@, i as nat),
    {
        if i < files.len() {
            let file_id = files[i].file_id.clone();
            (
                ReceiverSession { files, done, phase: ReceiverPhase::CheckResumeSent(i) },
                ReceiverAction::Send(Message::new(MessageType::CheckResume, MessagePayload::CheckResume(CheckResume { file_id }))),
            )
        } else {
            (ReceiverSession { files, done, phase: ReceiverPhase::AwaitMessage }, ReceiverAction::Receive)
        }
    }

    fn request_from(files: Vec<FileMetadata>, done: Vec<i64>, i: usize, from: i64) -> (r: (Self, ReceiverAction))
        requires
            i < files@.len(),
            from >= 0,
        ensures
            (r.0.state(), r.1) == request_from(files@, done@, i as nat, from),
    {
        match first_missing_chunk(files[i].total_chunks, done.as_slice(), from) {
            Some(j) => {
                let file_id = files[i].file_id.clone();
                (
                    ReceiverSession { files, done, phase: ReceiverPhase::RequestSent(i, j) },
                    ReceiverAction::Send(
                        Message::new(MessageType::ChunkRequest, MessagePayload::ChunkRequest(ChunkRequest { file_id, chunk_index: j })),
                    ),
                )
            },
            None => {
                let n: usize = files.len();
                assert(i < n);
                Self::ask_resume(files, done, i + 1)
            },
        }
    }

    fn on_chunk(files: Vec<FileMetadata>, done: Vec<i64>, i: usize, j: i64, m: Option<Message>) -> (r: (Self, ReceiverAction))
        requires
            i < files@.len(),
            0 <= j < files@[i as int].total_chunks,
        ensures
            (r.0.state(), r.1) == on_chunk(files@, done@, i as nat, j, m),
    {
        let (chunk, cancel) = match m {
            Some(msg) => match (msg.message_type, msg.payload) {
                (MessageType::ChunkData, MessagePayload::ChunkData(c)) => (Some(c), None),
                (MessageType::TransferCancel, MessagePayload::TransferCancel(t)) => (None, Some(t.transfer_id)),
                _ => (None, None),
            },
            None => (None, None),
        };
        if let Some(transfer_id) = cancel {
            return (ReceiverSession { files, done, phase: ReceiverPhase::Cancelling }, ReceiverAction::Cancel(transfer_id));
        }
        match chunk {
            None => Self::request_from(files, done, i, j + 1),
            Some(c) => {
                let crc = expected_crc32(c.chunk_hash.as_str());
                let file_id = files[i].file_id.clone();
                let file_size = files[i].file_size;
                let chunk_size = files[i].chunk_size;
                let actual = calculate_crc32(c.data.as_slice());
                if actual != crc {
                    return (
                        ReceiverSession { files, done, phase: ReceiverPhase::AckSent(i, j) },
                        ReceiverAction::Acknowledge { file_id, chunk_index: c.chunk_index, written: false },
                    );
                }
                let fits = match (c.chunk_index as u64).checked_mul(chunk_size as u64) {
                    Some(_) => true,
                    None => false,
                };
                if !fits {
                    return (
                        ReceiverSession { files, done, phase: ReceiverPhase::Done },
                        ReceiverAction::Fail(ReceiveError::ChunkOffsetOverflow),
                    );
                }
                let merger = FileMerger::new(file_size, chunk_size);
                match merger.write_chunk_offset(c.chunk_index, c.data.as_slice(), crc) {
                    Ok(Some(offset)) => (
                        ReceiverSession { files, done, phase: ReceiverPhase::Writing(i, j, c.chunk_index) },
                        ReceiverAction::WriteChunk { offset, data: c.data },
                    ),
                    _ => (
                        ReceiverSession { files, done, phase: ReceiverPhase::Done },
                        ReceiverAction::Fail(ReceiveError::ChunkOutOfRange),
                    ),
                }
            },
        }
    }

    /// Takes the next step (see `receiver_next`).
    pub fn step(self, event: ReceiverEvent) -> (r: (Self, ReceiverAction))
        ensures
            (r.0.state(), r.1) == receiver_next(self.state().0, self.state().1, self.state().2, event),
    {
        proof {
            use_type_invariant(&self);
        }
        let ReceiverSession { files, done, phase } = self;
        match (phase, event) {
            (ReceiverPhase::AwaitMessage, ReceiverEvent::Received(m)) => match m {
                None => (ReceiverSession { files, done, phase: ReceiverPhase::Done }, ReceiverAction::Finished),
                Some(msg) => {
                    let Message { message_type, payload } = msg;
                    match (message_type, payload) {
                        (MessageType::FileListMetadata, MessagePayload::FileListMetadata(list)) => Self::ask_resume(list.files, done, 0),
                        (MessageType::TransferCancel, MessagePayload::TransferCancel(c)) => (
                            ReceiverSession { files, done, phase: ReceiverPhase::Cancelling },
                            ReceiverAction::Cancel(c.transfer_id),
                        ),
                        _ => (ReceiverSession { files, done, phase: ReceiverPhase::AwaitMessage }, ReceiverAction::Receive),
                    }
                },
            },
            (ReceiverPhase::CheckResumeSent(i), ReceiverEvent::Sent) => (
                ReceiverSession { files, done, phase: ReceiverPhase::AwaitResumeInfo(i) },
                ReceiverAction::Receive,
            ),
            (ReceiverPhase::AwaitResumeInfo(i), ReceiverEvent::Received(m)) => {
                let (info, cancel) = match m {
                    Some(msg) => match (msg.message_type, msg.payload) {
                        (MessageType::ResumeInfo, MessagePayload::ResumeInfo(r)) => (Some(r), None),
                        (MessageType::TransferCancel, MessagePayload::TransferCancel(t)) => (None, Some(t.transfer_id)),
                        _ => (None, None),
                    },
                    None => (None, None),
                };
                if let Some(transfer_id) = cancel {
                    return (ReceiverSession { files, done, phase: ReceiverPhase::Cancelling }, ReceiverAction::Cancel(transfer_id));
                }
                match info {
                    Some(r) => {
                        let target = files[i].duplicate();
                        let keep = r.completed_chunks.len() > 0;
                        (
                            ReceiverSession { files, done: r.completed_chunks, phase: ReceiverPhase::Opening(i) },
                            ReceiverAction::OpenFile { file: target, keep },
                        )
                    },
                    None => {
                        let n: usize = files.len();
                        assert(i < n);
                        Self::ask_resume(files, done, i + 1)
                    },
                }
            },
            (ReceiverPhase::Opening(i), ReceiverEvent::Opened) => Self::request_from(files, done, i, 0),
            (ReceiverPhase::RequestSent(i, j), ReceiverEvent::Sent) => (
                ReceiverSession { files, done, phase: ReceiverPhase::AwaitChunk(i, j) },
                ReceiverAction::Receive,
            ),
            (ReceiverPhase::AwaitChunk(i, j), ReceiverEvent::Received(m)) => Self::on_chunk(files, done, i, j, m),
            (ReceiverPhase::Writing(i, j, k), ReceiverEvent::Written) => {
                let file_id = files[i].file_id.clone();
                (
                    ReceiverSession { files, done, phase: ReceiverPhase::AckSent(i, j) },
                    ReceiverAction::Acknowledge { file_id, chunk_index: k, written: true },
                )
            },
            (ReceiverPhase::AckSent(i, j), ReceiverEvent::Sent) => Self::request_from(files, done, i, j + 1),
            (ReceiverPhase::Cancelling, ReceiverEvent::Cancelled) => (
                ReceiverSession { files, done, phase: ReceiverPhase::Done },
                ReceiverAction::Finished,
            ),
            (_, _) => (ReceiverSession { files, done, phase: ReceiverPhase::Done }, ReceiverAction::Finished),
        }
    }
}


/// A chunk that arrives as the sender framed it (its hash text is the hexadecimal CRC-32 of
/// its bytes) and lies inside the file is written at its offset, then acknowledged as a
/// success under the file's identifier.
pub proof fn lemma_intact_chunk_written_then_acked(files: Seq<FileMetadata>, done: Seq<i64>, i: usize, j: i64, c: ChunkData)
    requires
        i < files.len(),
        c.chunk_hash@ == hex_lower(crc32_of(c.data@) as nat),
        chunk_offset(c.chunk_index, files[i as int].chunk_size as nat) < files[i as int].file_size,
    ensures
        receiver_next(files, done, ReceiverPhase::AwaitChunk(i, j), ReceiverEvent::Received(Some(Message { message_type: MessageType::ChunkData, payload: MessagePayload::ChunkData(c) })))
            == ((files, done, ReceiverPhase::Writing(i, j, c.chunk_index)), ReceiverAction::WriteChunk {
                offset: chunk_offset(c.chunk_index, files[i as int].chunk_size as nat) as u64,
                data: c.data,
            }),
        receiver_next(files, done, ReceiverPhase::Writing(i, j, c.chunk_index), ReceiverEvent::Written)
            == ((files, done, ReceiverPhase::AckSent(i, j)), ReceiverAction::Acknowledge {
                file_id: files[i as int].file_id,
                chunk_index: c.chunk_index,
                written: true,
            }),
{
    lemma_hex_roundtrip(crc32_of(c.data@));
}

/// A chunk whose bytes do not match the checksum it carries is not written: it is
/// acknowledged as a failure and the receiver then asks for the next missing chunk.
pub proof fn lemma_corrupt_chunk_refused(files: Seq<FileMetadata>, done: Seq<i64>, i: usize, j: i64, c: ChunkData)
    requires
        i < files.len(),
        0 <= j < files[i as int].total_chunks,
        crc32_of(c.data@) != claimed_crc32(c.chunk_hash@),
    ensures
        receiver_next(files, done, ReceiverPhase::AwaitChunk(i, j), ReceiverEvent::Received(Some(Message { message_type: MessageType::ChunkData, payload: MessagePayload::ChunkData(c) })))
            == ((files, done, ReceiverPhase::AckSent(i, j)), ReceiverAction::Acknowledge {
                file_id: files[i as int].file_id,
                chunk_index: c.chunk_index,
                written: false,
            }),
        receiver_next(files, done, ReceiverPhase::AckSent(i, j), ReceiverEvent::Sent) == request_from(files, done, i as nat, (j + 1) as i64),
{
}

/// After resuming with the done chunks `c`, the receiver keeps what the target holds exactly
/// when some chunk is done, and requests only chunks that are not done, each the lowest missing one from where it stands, and moves to the next file once
/// none is missing.
pub proof fn lemma_requests_skip_done_chunks(files: Seq<FileMetadata>, done: Seq<i64>, i: usize, c: Vec<i64>, from: i64)
    requires
        i < files.len(),
        from >= 0,
    ensures
        receiver_next(files, done, ReceiverPhase::AwaitResumeInfo(i), ReceiverEvent::Received(Some(Message {
            message_type: MessageType::ResumeInfo,
            payload: MessagePayload::ResumeInfo(ResumeInfo { file_id: files[i as int].file_id, completed_chunks: c }),
        }))) == ((files, c@, ReceiverPhase::Opening(i)), ReceiverAction::OpenFile { file: files[i as int], keep: c@.len() > 0 }),
        receiver_next(files, c@, ReceiverPhase::Opening(i), ReceiverEvent::Opened) == request_from(files, c@, i as nat, 0),
        match request_from(files, c@, i as nat, from) {
            ((_, _, ReceiverPhase::RequestSent(_, k)), _) => from <= k < files[i as int].total_chunks && !c@.contains(k)
                && forall|x: i64| from <= x < k ==> c@.contains(x),
            (_, a) => forall|x: i64| from <= x < files[i as int].total_chunks ==> c@.contains(x),
        },
{
    lemma_first_missing_spec(files[i as int].total_chunks, c@, from);
}

/// `first_missing` names the lowest index from `from` on, below `total`, that `done` lacks.
pub proof fn lemma_first_missing_spec(total: i64, done: Seq<i64>, from: i64)
    ensures
        match first_missing(total, done, from) {
            Some(k) => from <= k < total && !done.contains(k) && forall|x: i64| from <= x < k ==> done.contains(x),
            None => forall|x: i64| from <= x < total ==> done.contains(x),
        },
    decreases total - from,
{
    if from < total && done.contains(from) {
        lemma_first_missing_spec(total, done, (from + 1) as i64);
    }
}

/// A cancellation from the peer, whether it comes between sessions, while the receiver waits
/// for the done chunks of a file or while it waits for a chunk, makes the receiver clean up
/// the named transfer and stop.
pub proof fn lemma_cancel_stops(files: Seq<FileMetadata>, done: Seq<i64>, c: TransferCancel, i: usize, j: i64)
    requires
        i < files.len(),
    ensures
        receiver_next(files, done, ReceiverPhase::AwaitResumeInfo(i), ReceiverEvent::Received(Some(Message {
            message_type: MessageType::TransferCancel,
            payload: MessagePayload::TransferCancel(c),
        }))) == ((files, done, ReceiverPhase::Cancelling), ReceiverAction::Cancel(c.transfer_id)),
        receiver_next(files, done, ReceiverPhase::AwaitChunk(i, j), ReceiverEvent::Received(Some(Message {
            message_type: MessageType::TransferCancel,
            payload: MessagePayload::TransferCancel(c),
        }))) == ((files, done, ReceiverPhase::Cancelling), ReceiverAction::Cancel(c.transfer_id)),
        receiver_next(files, done, ReceiverPhase::AwaitMessage, ReceiverEvent::Received(Some(Message {
            message_type: MessageType::TransferCancel,
            payload: MessagePayload::TransferCancel(c),
        }))) == ((files, done, ReceiverPhase::Cancelling), ReceiverAction::Cancel(c.transfer_id)),
        receiver_next(files, done, ReceiverPhase::Cancelling, ReceiverEvent::Cancelled) == ((files, done, ReceiverPhase::Done), ReceiverAction::Finished),
{
}

/// What the receiver does once it has dealt with the chunks of file `i` before `from`: it
/// requests the lowest chunk of the file, from `from` on, that is not done; when none is
/// missing it asks about the done chunks of the next file of the session; after the last
/// file it listens for a new session.
pub open spec fn moves_on_from(
    files: Seq<FileMetadata>,
    done: Seq<i64>,
    i: nat,
    from: i64,
    r: (ReceiverState, ReceiverAction),
) -> bool {
    let total = files[i as int].total_chunks;
    if exists|k: i64| from <= k < total && !#[trigger] done.contains(k) {
        exists|k: i64|
            {
                &&& from <= k < total
                &&& !#[trigger] done.contains(k)
                &&& forall|x: i64| from <= x < k ==> #[trigger] done.contains(x)
                &&& r == (
                    (files, done, ReceiverPhase::RequestSent(i as usize, k)),
                    ReceiverAction::Send(Message {
                        message_type: MessageType::ChunkRequest,
                        payload: MessagePayload::ChunkRequest(ChunkRequest { file_id: files[i as int].file_id, chunk_index: k }),
                    }),
                )
            }
    } else if i + 1 < files.len() {
        r == (
            (files, done, ReceiverPhase::CheckResumeSent((i + 1) as usize)),
            ReceiverAction::Send(Message {
                message_type: MessageType::CheckResume,
                payload: MessagePayload::CheckResume(CheckResume { file_id: files[i + 1 as int].file_id }),
            }),
        )
    } else {
        r == ((files, done, ReceiverPhase::AwaitMessage), ReceiverAction::Receive)
    }
}

/// Requesting from `from` on moves on as `moves_on_from` says.
pub proof fn lemma_request_moves_on(files: Seq<FileMetadata>, done: Seq<i64>, i: usize, from: i64)
    requires
        i < files.len(),
        from >= 0,
    ensures
        moves_on_from(files, done, i as nat, from, request_from(files, done, i as nat, from)),
{
    let total = files[i as int].total_chunks;
    lemma_first_missing_spec(total, done, from);
    match first_missing(total, done, from) {
        Some(k) => {
            assert(from <= k < total && !done.contains(k));
        },
        None => {
            assert(!exists|k: i64| from <= k < total && !#[trigger] done.contains(k));
        },
    }
}

/// Once a chunk's acknowledgement is sent, the receiver goes on with the session: it
/// requests the next chunk of the file that is not done, or, when none is missing, asks about
/// the next file of the session (only after the last file does it listen for a new session).
pub proof fn lemma_after_ack_moves_on(files: Seq<FileMetadata>, done: Seq<i64>, i: usize, j: i64)
    requires
        i < files.len(),
        0 <= j < files[i as int].total_chunks,
    ensures
        moves_on_from(
            files,
            done,
            i as nat,
            (j + 1) as i64,
            receiver_next(files, done, ReceiverPhase::AckSent(i, j), ReceiverEvent::Sent),
        ),
{
    lemma_request_moves_on(files, done, i, (j + 1) as i64);
}

/// Once the target of a file is open, the receiver requests its first chunk that is not done,
/// or goes on to the next file when none is missing.
pub proof fn lemma_after_open_moves_on(files: Seq<FileMetadata>, done: Seq<i64>, i: usize)
    requires
        i < files.len(),
    ensures
        moves_on_from(files, done, i as nat, 0, receiver_next(files, done, ReceiverPhase::Opening(i), ReceiverEvent::Opened)),
{
    lemma_request_moves_on(files, done, i, 0);
}

/// While the receiver waits for a chunk, an answer that is neither chunk data nor a
/// cancellation (such as the notice that chunks follow), or the end of the stream, does not
/// end the session: the receiver goes on as after an acknowledgement.
pub proof fn lemma_other_reply_moves_on(files: Seq<FileMetadata>, done: Seq<i64>, i: usize, j: i64, m: Option<Message>)
    requires
        i < files.len(),
        0 <= j < files[i as int].total_chunks,
        m matches Some(msg) ==> !(msg.message_type == MessageType::ChunkData && msg.payload is ChunkData) && !(
        msg.message_type == MessageType::TransferCancel && msg.payload is TransferCancel),
    ensures
        moves_on_from(
            files,
            done,
            i as nat,
            (j + 1) as i64,
            receiver_next(files, done, ReceiverPhase::AwaitChunk(i, j), ReceiverEvent::Received(m)),
        ),
{
    lemma_request_moves_on(files, done, i, (j + 1) as i64);
}

/// Where the receiver turns to file `i` of a session: it asks about that file's done chunks,
/// or, past the last file, listens for a new session.
pub open spec fn turns_to_file(files: Seq<FileMetadata>, done: Seq<i64>, i: nat, r: (ReceiverState, ReceiverAction)) -> bool {
    if i < files.len() {
        r == (
            (files, done, ReceiverPhase::CheckResumeSent(i as usize)),
            ReceiverAction::Send(Message {
                message_type: MessageType::CheckResume,
                payload: MessagePayload::CheckResume(CheckResume { file_id: files[i as int].file_id }),
            }),
        )
    } else {
        r == ((files, done, ReceiverPhase::AwaitMessage), ReceiverAction::Receive)
    }
}

/// A file list starts a session at its first file; a file for which no resume information
/// comes (another answer, or the end of the stream) is passed over for the next file.
pub proof fn lemma_session_visits_each_file(
    files: Seq<FileMetadata>,
    done: Seq<i64>,
    list: FileListMetadata,
    i: usize,
    m: Option<Message>,
)
    requires
        i < files.len(),
        m matches Some(msg) ==> !(msg.message_type == MessageType::ResumeInfo && msg.payload is ResumeInfo) && !(
        msg.message_type == MessageType::TransferCancel && msg.payload is TransferCancel),
    ensures
        turns_to_file(
            list.files@,
            done,
            0,
            receiver_next(files, done, ReceiverPhase::AwaitMessage, ReceiverEvent::Received(Some(Message {
                message_type: MessageType::FileListMetadata,
                payload: MessagePayload::FileListMetadata(list),
            }))),
        ),
        turns_to_file(
            files,
            done,
            (i + 1) as nat,
            receiver_next(files, done, ReceiverPhase::AwaitResumeInfo(i), ReceiverEvent::Received(m)),
        ),
{
}

} // verus!
