use localdrop::file::merger::FileMerger;
use localdrop::file::splitter::{ChunkError, FileSplitter};
use localdrop::protocol::message::{MessagePayload, MessageType};
use localdrop::transfer::worker::{
    build_file_list, chunk_ack_message, chunk_data_message, contains_index, expected_crc32, first_missing_chunk,
    is_chunk_confirmed, plan_session, ChunkTracker, SourceFile,
};
use localdrop::utils::hash::calculate_crc32;

#[test]
fn chunk_counts() {
    assert_eq!(FileSplitter::new(0, 65536).total_chunks(), 0);
    assert_eq!(FileSplitter::new(1, 65536).total_chunks(), 1);
    assert_eq!(FileSplitter::new(65536, 65536).total_chunks(), 1);
    assert_eq!(FileSplitter::new(65537, 65536).total_chunks(), 2);
    assert_eq!(FileSplitter::new(10, 3).total_chunks(), 4);
    assert_eq!(FileSplitter::new(10, 3).file_size(), 10);
}

#[test]
fn chunk_spans_tile_the_file() {
    let s = FileSplitter::new(10, 3);
    assert_eq!(s.chunk_span(0), Ok((0, 3)));
    assert_eq!(s.chunk_span(1), Ok((3, 3)));
    assert_eq!(s.chunk_span(2), Ok((6, 3)));
    assert_eq!(s.chunk_span(3), Ok((9, 1)));
    assert_eq!(s.chunk_span(4), Err(ChunkError::OutOfRange));
    for (fs, cs) in [(0u64, 4usize), (1, 1), (100, 7), (1 << 20, 65536), ((1 << 20) + 5, 65536)] {
        let s = FileSplitter::new(fs, cs);
        let n = s.total_chunks();
        let mut next = 0u64;
        for i in 0..n {
            let (off, len) = s.chunk_span(i).unwrap();
            assert_eq!(off, next);
            assert!(len > 0 && len <= cs);
            next = off + len as u64;
        }
        assert_eq!(next, fs);
        assert_eq!(s.chunk_span(n), Err(ChunkError::OutOfRange));
    }
}

#[test]
fn finishing_a_read() {
    let s = FileSplitter::new(100, 10);
    let (data, crc) = s.finish_chunk(vec![1, 2, 3, 4, 5], 3);
    assert_eq!(data, vec![1, 2, 3]);
    assert_eq!(crc, calculate_crc32(&[1, 2, 3]));
    let (data, _) = s.finish_chunk(vec![1, 2], 5);
    assert_eq!(data, vec![1, 2]);
}

#[test]
fn merger_decisions() {
    let m = FileMerger::new(10, 4);
    assert_eq!(m.file_size(), 10);
    assert_eq!(m.chunk_size(), 4);
    let data = [9u8, 8, 7];
    let crc = calculate_crc32(&data);
    assert_eq!(m.write_chunk_offset(2, &data, crc), Ok(Some(8)));
    assert_eq!(m.write_chunk_offset(0, &data, crc), Ok(Some(0)));
    assert_eq!(m.write_chunk_offset(2, &data, crc ^ 1), Ok(None));
    assert_eq!(m.write_chunk_offset(3, &data, crc), Err(ChunkError::OutOfRange));
    assert_eq!(m.write_chunk_offset(3, &data, crc.wrapping_add(1)), Ok(None));
}

#[test]
fn missing_chunks() {
    assert_eq!(first_missing_chunk(5, &[0, 1, 3], 0), Some(2));
    assert_eq!(first_missing_chunk(5, &[0, 1, 3], 3), Some(4));
    assert_eq!(first_missing_chunk(3, &[0, 1, 2], 0), None);
    assert_eq!(first_missing_chunk(0, &[], 0), None);
    assert_eq!(first_missing_chunk(-1, &[], 0), None);
    assert!(contains_index(&[4, 5], 5));
    assert!(!contains_index(&[4, 5], 6));
}

#[test]
fn tracker_hands_out_each_chunk_until_all_are_acknowledged() {
    let mut t = ChunkTracker::new(3);
    assert_eq!(t.next_chunk(), Some(0));
    t.mark_completed(0);
    assert_eq!(t.next_chunk(), Some(1));
    t.mark_completed(2);
    assert_eq!(t.next_chunk(), Some(1));
    assert!(!t.is_finished());
    t.mark_completed(2);
    assert_eq!(t.completed_count(), 2);
    t.mark_completed(1);
    assert_eq!(t.next_chunk(), None);
    assert!(t.is_finished());
    assert_eq!(t.completed_count(), 3);
    let never = ChunkTracker::new(-1);
    assert_eq!(never.next_chunk(), None);
    assert!(!never.is_finished());
}

#[test]
fn chunk_messages() {
    let data = vec![1u8, 2, 3, 4];
    let crc = calculate_crc32(&data);
    let m = chunk_data_message("f1".into(), 7, data.clone(), crc);
    assert_eq!(m.message_type, MessageType::ChunkData);
    match &m.payload {
        MessagePayload::ChunkData(c) => {
            assert_eq!(c.file_id, "f1");
            assert_eq!(c.chunk_index, 7);
            assert_eq!(c.chunk_size, 4);
            assert_eq!(c.chunk_hash, format!("{:x}", crc));
            assert_eq!(c.data, data);
            assert_eq!(expected_crc32(&c.chunk_hash), crc);
        }
        _ => panic!("not chunk data"),
    }
    assert_eq!(expected_crc32("zz"), 0);
    assert_eq!(expected_crc32("+1F"), 31);
    let ok = chunk_ack_message("f1".into(), 7, true);
    let bad = chunk_ack_message("f1".into(), 7, false);
    match (&ok.payload, &bad.payload) {
        (MessagePayload::ChunkAck(a), MessagePayload::ChunkAck(b)) => {
            assert!(a.success && a.error.is_none());
            assert!(!b.success);
            assert_eq!(b.error.as_deref(), Some("CRC32 mismatch"));
        }
        _ => panic!("not acks"),
    }
    assert!(is_chunk_confirmed(&Some(ok)));
    assert!(!is_chunk_confirmed(&Some(bad)));
    assert!(!is_chunk_confirmed(&None));
    assert!(!is_chunk_confirmed(&Some(m)));
}

fn source(name: &str, size: u64) -> SourceFile {
    SourceFile { file_name: name.into(), file_size: size, file_hash: format!("h-{}", name) }
}

#[test]
fn file_lists() {
    let files = vec![source("a.txt", 10), source("b.bin", 70000)];
    let l = build_file_list("s1".into(), vec!["i1".into(), "i2".into()], &files, 65536);
    assert_eq!(l.session_id, "s1");
    assert_eq!(l.session_name, "多个文件");
    assert_eq!(l.total_files, 2);
    assert_eq!(l.total_size, 70010);
    assert_eq!(l.files[0].file_id, "i1");
    assert_eq!(l.files[0].total_chunks, 1);
    assert_eq!(l.files[1].total_chunks, 2);
    assert_eq!(l.files[1].file_hash, "h-b.bin");
    assert_eq!(l.files[1].relative_path, "");
    assert_eq!(l.files[1].chunk_size, 65536);
    let one = build_file_list("s2".into(), vec!["i".into()], &vec![source("only.pdf", 0)], 4);
    assert_eq!(one.session_name, "only.pdf");
    assert_eq!(one.files[0].total_chunks, 0);
    let none = build_file_list("s3".into(), vec![], &vec![], 4);
    assert_eq!(none.session_name, "多个文件");
    assert_eq!(none.total_files, 0);
    let planned = plan_session(&files, 1024);
    assert_eq!(planned.session_id.len(), 36);
    assert_eq!(planned.files.len(), 2);
    assert_ne!(planned.files[0].file_id, planned.files[1].file_id);
    assert_eq!(planned.files[1].total_chunks, 69);
}
