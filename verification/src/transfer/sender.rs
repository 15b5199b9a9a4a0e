//! The sending side of a session, as a state machine: each step takes what happened last
//! and names the next thing to do; the caller does the network, disk and database work.
use vstd::prelude::*;
use crate::protocol::message::{
    CheckResume, FileListMetadata, FileMetadata, Message, MessagePayload, MessageType, ResumeInfo,
    SessionComplete, TransferCancel, TransferComplete,
};

verus! {

/// What the sender waits for.
#[derive(Debug)]
pub enum SenderPhase {
    /// The file list has been handed out to be sent.
    ListSent,
    /// The metadata of file `i` has been handed out to be sent.
    MetadataSent(usize),
    /// A message that may ask which chunks of file `i` are done.
    AwaitResumeRequest(usize),
    /// The done chunks of the named file, for file `i`'s turn.
    LookingUp(usize, String),
    /// The resume information for file `i` has been handed out to be sent.
    ResumeInfoSent(usize),
    /// The notice that file `i`'s chunks follow has been handed out to be sent.
    StartSent(usize),
    /// File `i` is being sent chunk by chunk.
    SendingFile(usize),
    /// The completion notice of file `i` has been handed out to be sent.
    CompleteSent(usize),
    /// The session's completion notice has been handed out to be sent.
    SessionCompleteSent,
    /// The notice that the session is cancelled has been handed out to be sent.
    CancelSent,
    /// Nothing more.
    Done,
}

/// What happened since the last step.
#[derive(Debug)]
pub enum SenderEvent {
    /// The message handed out was sent.
    Sent,
    /// The next message from the peer, or `None` when the stream ended.
    Received(Option<Message>),
    /// The chunks the database records as done for the file that was looked up.
    CompletedChunks(Vec<i64>),
    /// The chunks of the current file have all been handed to the peer.
    FileSent,
    /// The user cancelled the session, for the reason given if any.
    Cancelled(Option<String>),
}

/// What to do next.
#[derive(Debug)]
pub enum SenderAction {
    Send(Message),
    Receive,
    /// Look up the done chunks of this file identifier.
    LookupCompletedChunks(String),
    /// Send the chunks of file `i` of the list.
    SendFile(usize),
    Finished,
}

/// The notice that a file's chunks follow.
pub open spec fn transfer_start() -> Message {
    Message { message_type: MessageType::TransferStart, payload: MessagePayload::TransferStart }
}

/// The notice that session `session_id` is cancelled.
pub open spec fn cancel_notice(session_id: String, reason: Option<String>) -> Message {
    Message {
        message_type: MessageType::TransferCancel,
        payload: MessagePayload::TransferCancel(TransferCancel { transfer_id: session_id, reason }),
    }
}

/// The identifier in a message that asks which chunks are done, if it is one.
pub open spec fn resume_request(m: Option<Message>) -> Option<String> {
    match m {
        Some(msg) => if msg.message_type == MessageType::CheckResume {
            match msg.payload {
                MessagePayload::CheckResume(req) => Some(req.file_id),
                _ => None,
            }
        } else {
            None
        },
        None => None,
    }
}

/// The turn of file `i`: its metadata goes out, or, past the last file, the session's
/// completion notice.
pub open spec fn announce(files: Seq<FileMetadata>, session_id: String, i: nat) -> (SenderPhase, SenderAction) {
    if i < files.len() {
        (
            SenderPhase::MetadataSent(i as usize),
            SenderAction::Send(Message { message_type: MessageType::FileMetadata, payload: MessagePayload::FileMetadata(files[i as int]) }),
        )
    } else {
        (
            SenderPhase::SessionCompleteSent,
            SenderAction::Send(Message {
                message_type: MessageType::SessionComplete,
                payload: MessagePayload::SessionComplete(SessionComplete { session_id }),
            }),
        )
    }
}

/// One step of the sender: from the phase and what happened, the next phase and action.
/// A cancellation, in any phase of a session not yet over, sends the peer the notice that
/// the session is cancelled and then ends it. Any other event the phase does not wait for
/// ends the session.
pub open spec fn sender_next(files: Seq<FileMetadata>, session_id: String, phase: SenderPhase, event: SenderEvent) -> (SenderPhase, SenderAction) {
    match (phase, event) {
        (SenderPhase::ListSent, SenderEvent::Sent) => announce(files, session_id, 0),
        (SenderPhase::MetadataSent(i), SenderEvent::Sent) => (SenderPhase::AwaitResumeRequest(i), SenderAction::Receive),
        (SenderPhase::AwaitResumeRequest(i), SenderEvent::Received(m)) => match resume_request(m) {
            Some(id) => (SenderPhase::LookingUp(i, id), SenderAction::LookupCompletedChunks(id)),
            None => (SenderPhase::StartSent(i), SenderAction::Send(transfer_start())),
        },
        (SenderPhase::LookingUp(i, id), SenderEvent::CompletedChunks(c)) => (
            SenderPhase::ResumeInfoSent(i),
            SenderAction::Send(Message {
                message_type: MessageType::ResumeInfo,
                payload: MessagePayload::ResumeInfo(ResumeInfo { file_id: id, completed_chunks: c }),
            }),
        ),
        (SenderPhase::ResumeInfoSent(i), SenderEvent::Sent) => (SenderPhase::StartSent(i), SenderAction::Send(transfer_start())),
        (SenderPhase::StartSent(i), SenderEvent::Sent) => (SenderPhase::SendingFile(i), SenderAction::SendFile(i)),
        (SenderPhase::SendingFile(i), SenderEvent::FileSent) => if i < files.len() {
            (
                SenderPhase::CompleteSent(i),
                SenderAction::Send(Message {
                    message_type: MessageType::TransferComplete,
                    payload: MessagePayload::TransferComplete(
                        TransferComplete { file_id: files[i as int].file_id, file_hash: files[i as int].file_hash },
                    ),
                }),
            )
        } else {
            (SenderPhase::Done, SenderAction::Finished)
        },
        (SenderPhase::CompleteSent(i), SenderEvent::Sent) => if i < files.len() {
            announce(files, session_id, (i + 1) as nat)
        } else {
            (SenderPhase::Done, SenderAction::Finished)
        },
        (SenderPhase::SessionCompleteSent, SenderEvent::Sent) => (SenderPhase::Done, SenderAction::Finished),
        (SenderPhase::CancelSent, SenderEvent::Sent) => (SenderPhase::Done, SenderAction::Finished),
        (SenderPhase::CancelSent, SenderEvent::Cancelled(_)) => (SenderPhase::Done, SenderAction::Finished),
        (SenderPhase::Done, SenderEvent::Cancelled(_)) => (SenderPhase::Done, SenderAction::Finished),
        (_, SenderEvent::Cancelled(reason)) => (SenderPhase::CancelSent, SenderAction::Send(cancel_notice(session_id, reason))),
        _ => (SenderPhase::Done, SenderAction::Finished),
    }
}

/// A sending session in progress.
pub struct SenderSession {
    files: Vec<FileMetadata>,
    session_id: String,
    phase: SenderPhase,
}

impl SenderSession {
    pub closed spec fn files(&self) -> Seq<FileMetadata> {
        self.files@
    }

    pub closed spec fn session_id(&self) -> String {
        self.session_id
    }

    pub closed spec fn phase(&self) -> SenderPhase {
        self.phase
    }

    /// Starts a session that sends the files of `list`; the list itself is the first message.
    pub fn new(list: FileListMetadata) -> (r: (Self, Message))
        ensures
            r.0.files() == list.files@,
            r.0.session_id() == list.session_id,
            r.0.phase() == SenderPhase::ListSent,
            r.1 == (Message { message_type: MessageType::FileListMetadata, payload: MessagePayload::FileListMetadata(list) }),
    {
        let mut files: Vec<FileMetadata> = Vec::new();
        let mut i: usize = 0;
        while i < list.files.len()
            invariant
                i <= list.files@.len(),
                files@ == list.files@.take(i as int),
            decreases list.files@.len() - i,
        {
            files.push(list.files[i].duplicate());
            assert(list.files@.take(i + 1) =~= list.files@.take(i as int).push(list.files@[i as int]));
            i = i + 1;
        }
        assert(list.files@.take(list.files@.len() as int) =~= list.files@);
        let session_id = list.session_id.clone();
        let first = Message::new(MessageType::FileListMetadata, MessagePayload::FileListMetadata(list));
        (SenderSession { files, session_id, phase: SenderPhase::ListSent }, first)
    }

    fn announce(&self, i: usize) -> (r: (SenderPhase, SenderAction))
        ensures
            r == announce(self.files@, self.session_id, i as nat),
    {
        if i < self.files.len() {
            (
                SenderPhase::MetadataSent(i),
                SenderAction::Send(Message::new(MessageType::FileMetadata, MessagePayload::FileMetadata(self.files[i].duplicate()))),
            )
        } else {
            (
                SenderPhase::SessionCompleteSent,
                SenderAction::Send(
                    Message::new(
                        MessageType::SessionComplete,
                        MessagePayload::SessionComplete(SessionComplete { session_id: self.session_id.clone() }),
                    ),
                ),
            )
        }
    }

    /// Takes the next step (see `sender_next`).
    pub fn step(&mut self, event: SenderEvent) -> (a: SenderAction)
        ensures
            final(self).files() == old(self).files(),
            final(self).session_id() == old(self).session_id(),
            (final(self).phase(), a) == sender_next(old(self).files(), old(self).session_id(), old(self).phase(), event),
    {
        let mut phase = SenderPhase::Done;
        std::mem::swap(&mut phase, &mut self.phase);
        let (next, action) = match (phase, event) {
            (SenderPhase::ListSent, SenderEvent::Sent) => self.announce(0),
            (SenderPhase::MetadataSent(i), SenderEvent::Sent) => (SenderPhase::AwaitResumeRequest(i), SenderAction::Receive),
            (SenderPhase::AwaitResumeRequest(i), SenderEvent::Received(m)) => {
                let request = match m {
                    Some(msg) => match msg.message_type {
                        MessageType::CheckResume => match msg.payload {
                            MessagePayload::CheckResume(req) => Some(req.file_id),
                            _ => None,
                        },
                        _ => None,
                    },
                    None => None,
                };
                match request {
                    Some(id) => {
                        let id2 = id.clone();
                        (SenderPhase::LookingUp(i, id), SenderAction::LookupCompletedChunks(id2))
                    },
                    None => (
                        SenderPhase::StartSent(i),
                        SenderAction::Send(Message::new(MessageType::TransferStart, MessagePayload::TransferStart)),
                    ),
                }
            },
            (SenderPhase::LookingUp(i, id), SenderEvent::CompletedChunks(c)) => (
                SenderPhase::ResumeInfoSent(i),
                SenderAction::Send(
                    Message::new(MessageType::ResumeInfo, MessagePayload::ResumeInfo(ResumeInfo { file_id: id, completed_chunks: c })),
                ),
            ),
            (SenderPhase::ResumeInfoSent(i), SenderEvent::Sent) => (
                SenderPhase::StartSent(i),
                SenderAction::Send(Message::new(MessageType::TransferStart, MessagePayload::TransferStart)),
            ),
            (SenderPhase::StartSent(i), SenderEvent::Sent) => (SenderPhase::SendingFile(i), SenderAction::SendFile(i)),
            (SenderPhase::SendingFile(i), SenderEvent::FileSent) => {
                if i < self.files.len() {
                    let f = &self.files[i];
                    (
                        SenderPhase::CompleteSent(i),
                        SenderAction::Send(
                            Message::new(
                                MessageType::TransferComplete,
                                MessagePayload::TransferComplete(
                                    TransferComplete { file_id: f.file_id.clone(), file_hash: f.file_hash.clone() },
                                ),
                            ),
                        ),
                    )
                } else {
                    (SenderPhase::Done, SenderAction::Finished)
                }
            },
            (SenderPhase::CompleteSent(i), SenderEvent::Sent) => {
                if i < self.files.len() {
                    self.announce(i + 1)
                } else {
                    (SenderPhase::Done, SenderAction::Finished)
                }
            },
            (SenderPhase::SessionCompleteSent, SenderEvent::Sent) => (SenderPhase::Done, SenderAction::Finished),
            (SenderPhase::CancelSent, SenderEvent::Sent) => (SenderPhase::Done, SenderAction::Finished),
            (SenderPhase::CancelSent, SenderEvent::Cancelled(_)) => (SenderPhase::Done, SenderAction::Finished),
            (SenderPhase::Done, SenderEvent::Cancelled(_)) => (SenderPhase::Done, SenderAction::Finished),
            (_, SenderEvent::Cancelled(reason)) => (
                SenderPhase::CancelSent,
                SenderAction::Send(
                    Message::new(
                        MessageType::TransferCancel,
                        MessagePayload::TransferCancel(TransferCancel { transfer_id: self.session_id.clone(), reason }),
                    ),
                ),
            ),
            _ => (SenderPhase::Done, SenderAction::Finished),
        };
        self.phase = next;
        action
    }
}


/// Each file's turn, with a peer that does not ask to resume: the file's metadata goes out,
/// one message is listened for, the notice that chunks follow goes out, the file's chunks are
/// sent, and the completion notice
/// carries the file's own identifier and hash; then comes the next file's turn (or, after
/// the last one, the session's completion notice).
pub proof fn lemma_sender_file_turn(files: Seq<FileMetadata>, session_id: String, i: usize, reply: Option<Message>)
    requires
        i < files.len(),
        resume_request(reply) is None,
    ensures
        announce(files, session_id, i as nat) == (
            SenderPhase::MetadataSent(i),
            SenderAction::Send(Message { message_type: MessageType::FileMetadata, payload: MessagePayload::FileMetadata(files[i as int]) }),
        ),
        sender_next(files, session_id, SenderPhase::MetadataSent(i), SenderEvent::Sent) == (SenderPhase::AwaitResumeRequest(i), SenderAction::Receive),
        sender_next(files, session_id, SenderPhase::AwaitResumeRequest(i), SenderEvent::Received(reply)) == (SenderPhase::StartSent(i), SenderAction::Send(transfer_start())),
        sender_next(files, session_id, SenderPhase::StartSent(i), SenderEvent::Sent) == (SenderPhase::SendingFile(i), SenderAction::SendFile(i)),
        sender_next(files, session_id, SenderPhase::SendingFile(i), SenderEvent::FileSent) == (
            SenderPhase::CompleteSent(i),
            SenderAction::Send(Message {
                message_type: MessageType::TransferComplete,
                payload: MessagePayload::TransferComplete(TransferComplete { file_id: files[i as int].file_id, file_hash: files[i as int].file_hash }),
            }),
        ),
        sender_next(files, session_id, SenderPhase::CompleteSent(i), SenderEvent::Sent) == announce(files, session_id, (i + 1) as nat),
{
}

/// A request to resume, while the sender listens during a file's turn, is answered with the
/// done chunks that the lookup found, under the identifier that was asked about; then the
/// notice that chunks follow goes out and the file is sent.
pub proof fn lemma_sender_answers_resume(files: Seq<FileMetadata>, session_id: String, i: usize, req: CheckResume, done: Vec<i64>)
    ensures
        sender_next(files, session_id, SenderPhase::AwaitResumeRequest(i), SenderEvent::Received(Some(Message {
            message_type: MessageType::CheckResume,
            payload: MessagePayload::CheckResume(req),
        }))) == (SenderPhase::LookingUp(i, req.file_id), SenderAction::LookupCompletedChunks(req.file_id)),
        sender_next(files, session_id, SenderPhase::LookingUp(i, req.file_id), SenderEvent::CompletedChunks(done)) == (
            SenderPhase::ResumeInfoSent(i),
            SenderAction::Send(Message {
                message_type: MessageType::ResumeInfo,
                payload: MessagePayload::ResumeInfo(ResumeInfo { file_id: req.file_id, completed_chunks: done }),
            }),
        ),
        sender_next(files, session_id, SenderPhase::ResumeInfoSent(i), SenderEvent::Sent) == (SenderPhase::StartSent(i), SenderAction::Send(transfer_start())),
        sender_next(files, session_id, SenderPhase::StartSent(i), SenderEvent::Sent) == (SenderPhase::SendingFile(i), SenderAction::SendFile(i)),
{
}

/// The session opens with the file list; after the last file's turn the session's completion
/// notice goes out, and then the sender is finished.
pub proof fn lemma_sender_opens_and_closes(list: FileListMetadata)
    ensures
        sender_next(list.files@, list.session_id, SenderPhase::ListSent, SenderEvent::Sent) == announce(list.files@, list.session_id, 0),
        announce(list.files@, list.session_id, list.files@.len()) == (
            SenderPhase::SessionCompleteSent,
            SenderAction::Send(Message {
                message_type: MessageType::SessionComplete,
                payload: MessagePayload::SessionComplete(SessionComplete { session_id: list.session_id }),
            }),
        ),
        sender_next(list.files@, list.session_id, SenderPhase::SessionCompleteSent, SenderEvent::Sent) == (SenderPhase::Done, SenderAction::Finished),
{
}

/// Cancelling a session that is not over, whatever it waits for, sends the peer the notice
/// that this session is cancelled, with the reason given; once that notice is sent the
/// sender is finished. Cancelling a session that is over does nothing more.
pub proof fn lemma_sender_cancels(files: Seq<FileMetadata>, session_id: String, phase: SenderPhase, reason: Option<String>)
    ensures
        !(phase is Done) && !(phase is CancelSent) ==> sender_next(files, session_id, phase, SenderEvent::Cancelled(reason))
            == (SenderPhase::CancelSent, SenderAction::Send(cancel_notice(session_id, reason))),
        (phase is Done || phase is CancelSent) ==> sender_next(files, session_id, phase, SenderEvent::Cancelled(reason))
            == (SenderPhase::Done, SenderAction::Finished),
        sender_next(files, session_id, SenderPhase::CancelSent, SenderEvent::Sent) == (SenderPhase::Done, SenderAction::Finished),
        cancel_notice(session_id, reason).payload == MessagePayload::TransferCancel(
            TransferCancel { transfer_id: session_id, reason },
        ),
{
}

} // verus!
