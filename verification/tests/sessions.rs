use localdrop::protocol::message::{
    ChunkData, FileListMetadata, FileMetadata, Message, MessagePayload, MessageType, ResumeInfo, TransferCancel,
};
use localdrop::protocol::message::CheckResume;
use localdrop::transfer::receiver::{ReceiveError, ReceiverAction, ReceiverEvent, ReceiverSession};
use localdrop::transfer::sender::{SenderAction, SenderEvent, SenderSession};
use localdrop::transfer::worker::chunk_data_message;
use localdrop::utils::hash::calculate_crc32;

fn meta(id: &str, size: u64, chunk: usize) -> FileMetadata {
    FileMetadata {
        file_id: id.into(),
        file_name: format!("{}.dat", id),
        relative_path: String::new(),
        file_size: size,
        file_hash: format!("hash-{}", id),
        total_chunks: ((size + chunk as u64 - 1) / chunk as u64) as i64,
        chunk_size: chunk,
    }
}

fn list(files: Vec<FileMetadata>) -> FileListMetadata {
    FileListMetadata { session_id: "sess".into(), session_name: "n".into(), total_files: files.len() as i64, total_size: 0, files }
}

fn sent(a: &SenderAction) -> &Message {
    match a {
        SenderAction::Send(m) => m,
        other => panic!("expected a send, got {:?}", other),
    }
}

#[test]
fn sender_runs_a_session_in_order() {
    let (mut s, first) = SenderSession::new(list(vec![meta("a", 5, 4), meta("b", 3, 4)]));
    assert_eq!(first.message_type, MessageType::FileListMetadata);
    let a = s.step(SenderEvent::Sent);
    assert!(matches!(&sent(&a).payload, MessagePayload::FileMetadata(f) if f.file_id == "a"));
    assert!(matches!(s.step(SenderEvent::Sent), SenderAction::Receive));
    let ask = Message::new(MessageType::CheckResume, MessagePayload::CheckResume(CheckResume { file_id: "a".into() }));
    assert!(matches!(s.step(SenderEvent::Received(Some(ask))), SenderAction::LookupCompletedChunks(ref id) if id == "a"));
    let r = s.step(SenderEvent::CompletedChunks(vec![0]));
    assert!(matches!(&sent(&r).payload, MessagePayload::ResumeInfo(ri) if ri.file_id == "a" && ri.completed_chunks == vec![0]));
    let start = s.step(SenderEvent::Sent);
    assert!(matches!(sent(&start).payload, MessagePayload::TransferStart));
    assert_eq!(sent(&start).message_type, MessageType::TransferStart);
    assert!(matches!(s.step(SenderEvent::Sent), SenderAction::SendFile(0)));
    let c = s.step(SenderEvent::FileSent);
    assert!(matches!(&sent(&c).payload, MessagePayload::TransferComplete(t) if t.file_id == "a" && t.file_hash == "hash-a"));
    let b = s.step(SenderEvent::Sent);
    assert!(matches!(&sent(&b).payload, MessagePayload::FileMetadata(f) if f.file_id == "b"));
    assert!(matches!(s.step(SenderEvent::Sent), SenderAction::Receive));
    let start = s.step(SenderEvent::Received(None));
    assert!(matches!(sent(&start).payload, MessagePayload::TransferStart));
    assert!(matches!(s.step(SenderEvent::Sent), SenderAction::SendFile(1)));
    let c = s.step(SenderEvent::FileSent);
    assert!(matches!(&sent(&c).payload, MessagePayload::TransferComplete(t) if t.file_id == "b"));
    let end = s.step(SenderEvent::Sent);
    assert!(matches!(&sent(&end).payload, MessagePayload::SessionComplete(sc) if sc.session_id == "sess"));
    assert!(matches!(s.step(SenderEvent::Sent), SenderAction::Finished));
    assert!(matches!(s.step(SenderEvent::Sent), SenderAction::Finished));
}

#[test]
fn sender_stops_on_an_unexpected_event() {
    let (mut s, _) = SenderSession::new(list(vec![meta("a", 5, 4)]));
    assert!(matches!(s.step(SenderEvent::FileSent), SenderAction::Finished));
}

fn received(m: Message) -> ReceiverEvent {
    ReceiverEvent::Received(Some(m))
}

#[test]
fn receiver_fetches_missing_chunks() {
    let (r, first) = ReceiverSession::new();
    assert!(matches!(first, ReceiverAction::Receive));
    let files = vec![meta("a", 10, 4)];
    let (r, a) = r.step(received(Message::new(MessageType::FileListMetadata, MessagePayload::FileListMetadata(list(files)))));
    match a {
        ReceiverAction::Send(m) => assert!(matches!(m.payload, MessagePayload::CheckResume(ref c) if c.file_id == "a")),
        other => panic!("{:?}", other),
    }
    let (r, a) = r.step(ReceiverEvent::Sent);
    assert!(matches!(a, ReceiverAction::Receive));
    let resume = Message::new(MessageType::ResumeInfo, MessagePayload::ResumeInfo(ResumeInfo { file_id: "a".into(), completed_chunks: vec![0] }));
    let (r, a) = r.step(received(resume));
    assert!(matches!(a, ReceiverAction::OpenFile { ref file, keep: true } if file.file_id == "a" && file.file_size == 10));
    let (r, a) = r.step(ReceiverEvent::Opened);
    match a {
        ReceiverAction::Send(m) => assert!(matches!(m.payload, MessagePayload::ChunkRequest(ref q) if q.chunk_index == 1)),
        other => panic!("{:?}", other),
    }
    let (r, _) = r.step(ReceiverEvent::Sent);
    let data = vec![5u8, 6, 7, 8];
    let chunk = chunk_data_message("a".into(), 1, data.clone(), calculate_crc32(&data));
    let (r, a) = r.step(received(chunk));
    assert!(matches!(a, ReceiverAction::WriteChunk { offset: 4, ref data } if data == &vec![5u8, 6, 7, 8]));
    let (r, a) = r.step(ReceiverEvent::Written);
    assert!(matches!(a, ReceiverAction::Acknowledge { ref file_id, chunk_index: 1, written: true } if file_id == "a"));
    let (r, a) = r.step(ReceiverEvent::Sent);
    match a {
        ReceiverAction::Send(m) => assert!(matches!(m.payload, MessagePayload::ChunkRequest(ref q) if q.chunk_index == 2)),
        other => panic!("{:?}", other),
    }
    let (r, _) = r.step(ReceiverEvent::Sent);
    let bad = Message::new(
        MessageType::ChunkData,
        MessagePayload::ChunkData(ChunkData { file_id: "a".into(), chunk_index: 2, chunk_size: 2, chunk_hash: "0".into(), data: vec![1, 2] }),
    );
    let (r, a) = r.step(received(bad));
    assert!(matches!(a, ReceiverAction::Acknowledge { chunk_index: 2, written: false, .. }));
    let (r, a) = r.step(ReceiverEvent::Sent);
    assert!(matches!(a, ReceiverAction::Receive));
    let (_, a) = r.step(ReceiverEvent::Received(None));
    assert!(matches!(a, ReceiverAction::Finished));
}

#[test]
fn receiver_refuses_chunks_past_the_end() {
    let (r, _) = ReceiverSession::new();
    let (r, _) = r.step(received(Message::new(MessageType::FileListMetadata, MessagePayload::FileListMetadata(list(vec![meta("a", 4, 4)])))));
    let (r, _) = r.step(ReceiverEvent::Sent);
    let resume = Message::new(MessageType::ResumeInfo, MessagePayload::ResumeInfo(ResumeInfo { file_id: "a".into(), completed_chunks: vec![] }));
    let (r, a) = r.step(received(resume));
    assert!(matches!(a, ReceiverAction::OpenFile { keep: false, .. }));
    let (r, _) = r.step(ReceiverEvent::Opened);
    let (r, _) = r.step(ReceiverEvent::Sent);
    let data = vec![1u8];
    let (_, a) = r.step(received(chunk_data_message("a".into(), 5, data.clone(), calculate_crc32(&data))));
    assert!(matches!(a, ReceiverAction::Fail(ReceiveError::ChunkOutOfRange)));
}

#[test]
fn receiver_skips_a_file_without_resume_info_and_handles_cancel() {
    let (r, _) = ReceiverSession::new();
    let (r, _) = r.step(received(Message::new(MessageType::FileListMetadata, MessagePayload::FileListMetadata(list(vec![meta("a", 4, 4), meta("b", 4, 4)])))));
    let (r, _) = r.step(ReceiverEvent::Sent);
    let (r, a) = r.step(ReceiverEvent::Received(None));
    match a {
        ReceiverAction::Send(m) => assert!(matches!(m.payload, MessagePayload::CheckResume(ref c) if c.file_id == "b")),
        other => panic!("{:?}", other),
    }
    let (r, _) = r.step(ReceiverEvent::Sent);
    let (r, a) = r.step(received(Message::new(MessageType::TransferStart, MessagePayload::TransferStart)));
    assert!(matches!(a, ReceiverAction::Receive));
    let cancel = Message::new(MessageType::TransferCancel, MessagePayload::TransferCancel(TransferCancel { transfer_id: "t9".into(), reason: None }));
    let (r, a) = r.step(received(cancel));
    assert!(matches!(a, ReceiverAction::Cancel(ref id) if id == "t9"));
    let (_, a) = r.step(ReceiverEvent::Cancelled);
    assert!(matches!(a, ReceiverAction::Finished));
}

fn cancel_message(id: &str) -> Message {
    Message::new(MessageType::TransferCancel, MessagePayload::TransferCancel(TransferCancel { transfer_id: id.into(), reason: None }))
}

#[test]
fn receiver_handles_cancel_while_waiting_for_a_chunk() {
    let (r, _) = ReceiverSession::new();
    let (r, _) = r.step(received(Message::new(MessageType::FileListMetadata, MessagePayload::FileListMetadata(list(vec![meta("a", 8, 4)])))));
    let (r, _) = r.step(ReceiverEvent::Sent);
    let resume = Message::new(MessageType::ResumeInfo, MessagePayload::ResumeInfo(ResumeInfo { file_id: "a".into(), completed_chunks: vec![] }));
    let (r, _) = r.step(received(resume));
    let (r, _) = r.step(ReceiverEvent::Opened);
    let (r, a) = r.step(ReceiverEvent::Sent);
    assert!(matches!(a, ReceiverAction::Receive));
    let (r, a) = r.step(received(cancel_message("s1")));
    assert!(matches!(a, ReceiverAction::Cancel(ref id) if id == "s1"));
    let (_, a) = r.step(ReceiverEvent::Cancelled);
    assert!(matches!(a, ReceiverAction::Finished));
}

#[test]
fn receiver_handles_cancel_while_waiting_for_resume_info() {
    let (r, _) = ReceiverSession::new();
    let (r, _) = r.step(received(Message::new(MessageType::FileListMetadata, MessagePayload::FileListMetadata(list(vec![meta("a", 8, 4)])))));
    let (r, _) = r.step(ReceiverEvent::Sent);
    let (_, a) = r.step(received(cancel_message("s2")));
    assert!(matches!(a, ReceiverAction::Cancel(ref id) if id == "s2"));
}

#[test]
fn sender_cancel_notifies_the_peer() {
    let files = vec![meta("a", 10, 4)];
    let (mut s, _) = SenderSession::new(list(files));
    assert!(matches!(s.step(SenderEvent::Sent), SenderAction::Send(_)));
    assert!(matches!(s.step(SenderEvent::Sent), SenderAction::Receive));
    let a = s.step(SenderEvent::Cancelled(Some("by user".into())));
    match a {
        SenderAction::Send(m) => {
            assert_eq!(m.message_type, MessageType::TransferCancel);
            match m.payload {
                MessagePayload::TransferCancel(c) => {
                    assert_eq!(c.transfer_id, "sess");
                    assert_eq!(c.reason, Some("by user".to_string()));
                }
                other => panic!("{:?}", other),
            }
        }
        other => panic!("{:?}", other),
    }
    assert!(matches!(s.step(SenderEvent::Sent), SenderAction::Finished));
    assert!(matches!(s.step(SenderEvent::Cancelled(None)), SenderAction::Finished));
}
