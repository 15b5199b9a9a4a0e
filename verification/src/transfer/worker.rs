//! The decisions of a transfer: which chunk to handle next, what to tell the peer, and
//! whether a received chunk is kept.
use vstd::prelude::*;
use vstd::string::StringExecFns;
use std::collections::HashSet;
use crate::file::merger::merge_decision;
use crate::file::splitter::{chunk_count, chunk_offset, ChunkError, FileSplitter};
use crate::protocol::message::{
    ChunkAck, ChunkData, FileListMetadata, FileMetadata, Message, MessagePayload, MessageType,
};
use crate::utils::config::{fresh_uuid, is_taken, is_uuid_v4_text, new_uuid_string};
use crate::utils::hash::crc32_of;
use crate::utils::text::{hex_lower, lemma_hex_roundtrip, parse_hex_u32, parse_hex_u32_spec, push_char, u32_to_hex};

verus! {

/// Whether `x` occurs in `done`.
pub fn contains_index(done: &[i64], x: i64) -> (r: bool)
    ensures
        r == done@.contains(x),
{
    let mut i: usize = 0;
    while i < done.len()
        invariant
            i <= done@.len(),
            forall|j: int| 0 <= j < i ==> done@[j] != x,
        decreases done@.len() - i,
    {
        if done[i] == x {
            return true;
        }
        i = i + 1;
    }
    false
}

/// The first chunk index from `from` on, below `total`, that is not in `done`.
pub open spec fn first_missing(total: i64, done: Seq<i64>, from: i64) -> Option<i64>
    decreases total - from,
{
    if from >= total {
        None
    } else if done.contains(from) {
        first_missing(total, done, (from + 1) as i64)
    } else {
        Some(from)
    }
}

/// The first chunk index from `from` on, below `total_chunks`, that is not in `done`.
pub fn first_missing_chunk(total_chunks: i64, done: &[i64], from: i64) -> (r: Option<i64>)
    ensures
        r == first_missing(total_chunks, done@, from),
        match r {
            Some(i) => {
                &&& from <= i < total_chunks
                &&& !done@.contains(i)
                &&& forall|j: i64| from <= j < i ==> done@.contains(j)
            },
            None => forall|j: i64| from <= j < total_chunks ==> done@.contains(j),
        },
{
    let mut idx = from;
    while idx < total_chunks && contains_index(done, idx)
        invariant
            from <= idx,
            forall|j: i64| from <= j < idx ==> done@.contains(j),
            first_missing(total_chunks, done@, from) == first_missing(total_chunks, done@, idx),
        decreases total_chunks - idx,
    {
        idx = idx + 1;
    }
    if idx >= total_chunks {
        None
    } else {
        Some(idx)
    }
}

/// The chunks of one file that the peer has acknowledged, shared by the workers that send it.
pub struct ChunkTracker {
    total_chunks: i64,
    completed: HashSet<i64>,
}

impl ChunkTracker {
    #[verifier::type_invariant]
    spec fn wf(self) -> bool {
        self.completed@.finite()
    }

    /// The acknowledged chunk indices.
    pub closed spec fn done(&self) -> Set<i64> {
        self.completed@
    }

    pub closed spec fn total(&self) -> i64 {
        self.total_chunks
    }

    pub fn new(total_chunks: i64) -> (t: Self)
        ensures
            t.done() == Set::<i64>::empty(),
            t.done().finite(),
            t.total() == total_chunks,
    {
        ChunkTracker { total_chunks, completed: HashSet::new() }
    }

    /// The chunk a worker sends next: the lowest index below the chunk count that is not
    /// acknowledged yet, or `None` when every one is.
    pub fn next_chunk(&self) -> (r: Option<i64>)
        ensures
            match r {
                Some(i) => {
                    &&& 0 <= i < self.total()
                    &&& !self.done().contains(i)
                    &&& forall|j: i64| 0 <= j < i ==> self.done().contains(j)
                },
                None => forall|j: i64| 0 <= j < self.total() ==> self.done().contains(j),
            },
    {
        broadcast use vstd::std_specs::hash::group_hash_axioms;
        let mut idx: i64 = 0;
        while idx < self.total_chunks && self.completed.contains(&idx)
            invariant
                0 <= idx,
                forall|j: i64| 0 <= j < idx ==> self.completed@.contains(j),
            decreases self.total_chunks - idx,
        {
            idx = idx + 1;
        }
        if idx >= self.total_chunks {
            None
        } else {
            Some(idx)
        }
    }

    /// Records a successful acknowledgement of chunk `chunk_index`.
    pub fn mark_completed(&mut self, chunk_index: i64)
        ensures
            final(self).done() == old(self).done().insert(chunk_index),
            final(self).total() == old(self).total(),
            final(self).done().finite(),
            !old(self).done().contains(chunk_index) ==> final(self).done().len() == old(self).done().len() + 1,
    {
        broadcast use vstd::std_specs::hash::group_hash_axioms;
        proof {
            use_type_invariant(&*self);
        }
        let mut completed: HashSet<i64> = HashSet::new();
        std::mem::swap(&mut completed, &mut self.completed);
        completed.insert(chunk_index);
        self.completed = completed;
    }

    /// Number of acknowledged chunks.
    pub fn completed_count(&self) -> (n: usize)
        ensures
            n == self.done().len(),
    {
        broadcast use vstd::std_specs::hash::group_hash_axioms;
        self.completed.len()
    }

    /// Whether the workers stop: as many chunks are acknowledged as the chunk count, read
    /// as a `usize`.
    pub fn is_finished(&self) -> (r: bool)
        ensures
            r == (self.done().len() >= #[verifier::truncate] (self.total() as usize)),
    {
        let n = self.completed_count();
        n >= #[verifier::truncate] (self.total_chunks as usize)
    }
}

/// The chunk indices of a file with `total` chunks.
pub open spec fn index_range(total: i64) -> Set<i64> {
    Set::new(|j: i64| 0 <= j < total)
}

proof fn lemma_index_range_len(total: i64)
    requires
        total >= 0,
    ensures
        index_range(total).finite(),
        index_range(total).len() == total,
    decreases total,
{
    if total == 0 {
        assert(index_range(0) =~= Set::<i64>::empty());
    } else {
        lemma_index_range_len((total - 1) as i64);
        assert(index_range(total) =~= index_range((total - 1) as i64).insert((total - 1) as i64));
    }
}

/// Once every chunk of a file has been acknowledged, the workers stop: the tracker is finished
/// and has no chunk left to hand out.
pub proof fn lemma_all_acknowledged_finishes(t: &ChunkTracker)
    requires
        t.done().finite(),
        t.total() >= 0,
        forall|j: i64| 0 <= j < t.total() ==> t.done().contains(j),
    ensures
        t.done().len() >= t.total(),
{
    lemma_index_range_len(t.total());
    assert(index_range(t.total()).subset_of(t.done()));
    vstd::set_lib::lemma_len_subset(index_range(t.total()), t.done());
}

/// Whether the peer's reply to a chunk confirms it: a chunk acknowledgement that reports success.
pub open spec fn confirms_chunk(m: Option<Message>) -> bool {
    match m {
        Some(msg) => msg.message_type == MessageType::ChunkAck && match msg.payload {
            MessagePayload::ChunkAck(a) => a.success,
            _ => false,
        },
        None => false,
    }
}

pub fn is_chunk_confirmed(m: &Option<Message>) -> (r: bool)
    ensures
        r == confirms_chunk(*m),
{
    match m {
        Some(msg) => match msg.message_type {
            MessageType::ChunkAck => match &msg.payload {
                MessagePayload::ChunkAck(a) => a.success,
                _ => false,
            },
            _ => false,
        },
        None => false,
    }
}

/// The CRC-32 that a received chunk claims: its hash text read as hexadecimal, or 0 when it
/// does not read (`u32::from_str_radix(hash, 16).unwrap_or(0)`).
pub open spec fn claimed_crc32(chunk_hash: Seq<char>) -> u32 {
    match parse_hex_u32_spec(chunk_hash) {
        Some(v) => v,
        None => 0,
    }
}

pub fn expected_crc32(chunk_hash: &str) -> (crc: u32)
    ensures
        crc == claimed_crc32(chunk_hash@),
{
    match parse_hex_u32(chunk_hash) {
        Some(v) => v,
        None => 0,
    }
}

/// The message that carries chunk `chunk_index` of a file: its bytes, their count, and
/// their CRC-32 in lower-case hexadecimal.
pub fn chunk_data_message(file_id: String, chunk_index: i64, data: Vec<u8>, crc32: u32) -> (m: Message)
    ensures
        m.message_type == MessageType::ChunkData,
        m.payload matches MessagePayload::ChunkData(c) && {
            &&& c.file_id == file_id
            &&& c.chunk_index == chunk_index
            &&& c.chunk_size == data@.len()
            &&& c.chunk_hash@ == hex_lower(crc32 as nat)
            &&& c.data == data
        },
{
    let chunk_size = data.len();
    Message::new(
        MessageType::ChunkData,
        MessagePayload::ChunkData(ChunkData { file_id, chunk_index, chunk_size, chunk_hash: u32_to_hex(crc32), data }),
    )
}

/// The receiver's answer to a chunk: success, or failure explained as a CRC-32 mismatch.
pub fn chunk_ack_message(file_id: String, chunk_index: i64, written: bool) -> (m: Message)
    ensures
        m.message_type == MessageType::ChunkAck,
        m.payload matches MessagePayload::ChunkAck(a) && {
            &&& a.file_id == file_id
            &&& a.chunk_index == chunk_index
            &&& a.success == written
            &&& written ==> a.error is None
            &&& !written ==> (a.error matches Some(e) && e@ == "CRC32 mismatch"@)
        },
{
    let error = if written { None } else { Some(String::from_str("CRC32 mismatch")) };
    Message::new(MessageType::ChunkAck, MessagePayload::ChunkAck(ChunkAck { file_id, chunk_index, success: written, error }))
}

/// A chunk that reaches the receiver as the sender framed it is written where it belongs:
/// its hash text reads back as the CRC-32 of its bytes, so the check passes.
pub proof fn lemma_intact_chunk_is_written(file_size: u64, chunk_size: usize, chunk_index: i64, data: Seq<u8>)
    ensures
        merge_decision(file_size, chunk_size, chunk_index, data, claimed_crc32(hex_lower(crc32_of(data) as nat)))
            == if chunk_offset(chunk_index, chunk_size as nat) >= file_size {
                Err::<Option<u64>, ChunkError>(ChunkError::OutOfRange)
            } else {
                Ok(Some(chunk_offset(chunk_index, chunk_size as nat) as u64))
            },
{
    lemma_hex_roundtrip(crc32_of(data));
}

/// A file about to be sent: its name, size and SHA-256 text.
#[derive(Debug, Clone, PartialEq, Eq)]
pub struct SourceFile {
    pub file_name: String,
    pub file_size: u64,
    pub file_hash: String,
}

/// Total size of a list of files.
pub open spec fn total_file_size(files: Seq<SourceFile>) -> nat
    decreases files.len(),
{
    if files.len() == 0 {
        0
    } else {
        total_file_size(files.drop_last()) + files.last().file_size as nat
    }
}

/// The name a session gets: the file's own name for one file, "多个文件" ("several files")
/// otherwise.
pub open spec fn session_name_of(files: Seq<SourceFile>) -> Seq<char> {
    if files.len() == 1 {
        files[0].file_name@
    } else {
        seq!['\u{591a}', '\u{4e2a}', '\u{6587}', '\u{4ef6}']
    }
}

/// The metadata entry of `file` under identifier `file_id`.
pub open spec fn describes(m: FileMetadata, file_id: String, file: SourceFile, chunk_size: usize) -> bool {
    &&& m.file_id == file_id
    &&& m.file_name == file.file_name
    &&& m.relative_path@ == Seq::<char>::empty()
    &&& m.file_size == file.file_size
    &&& m.file_hash == file.file_hash
    &&& m.total_chunks == #[verifier::truncate] (chunk_count(file.file_size as nat, chunk_size as nat) as i64)
    &&& m.chunk_size == chunk_size
}

/// The announcement of a session that sends `files` under the given identifiers.
pub fn build_file_list(session_id: String, file_ids: Vec<String>, files: &Vec<SourceFile>, chunk_size: usize) -> (l: FileListMetadata)
    requires
        chunk_size > 0,
        file_ids@.len() == files@.len(),
        forall|i: int| 0 <= i < files@.len() ==> #[trigger] files@[i].file_size + chunk_size <= u64::MAX,
        total_file_size(files@) <= u64::MAX,
    ensures
        l.session_id == session_id,
        l.session_name@ == session_name_of(files@),
        l.total_files == files@.len() as i64,
        l.total_size == total_file_size(files@),
        l.files@.len() == files@.len(),
        forall|i: int| 0 <= i < files@.len() ==> describes(#[trigger] l.files@[i], file_ids@[i], files@[i], chunk_size),
{
    let mut entries: Vec<FileMetadata> = Vec::new();
    let mut total_size: u64 = 0;
    let mut i: usize = 0;
    while i < files.len()
        invariant
            chunk_size > 0,
            file_ids@.len() == files@.len(),
            forall|k: int| 0 <= k < files@.len() ==> #[trigger] files@[k].file_size + chunk_size <= u64::MAX,
            total_file_size(files@) <= u64::MAX,
            i <= files@.len(),
            entries@.len() == i,
            total_size == total_file_size(files@.take(i as int)),
            forall|k: int| 0 <= k < i ==> describes(#[trigger] entries@[k], file_ids@[k], files@[k], chunk_size),
        decreases files@.len() - i,
    {
        let f = &files[i];
        let total_chunks = FileSplitter::new(f.file_size, chunk_size).total_chunks();
        entries.push(FileMetadata {
            file_id: file_ids[i].clone(),
            file_name: f.file_name.clone(),
            relative_path: String::new(),
            file_size: f.file_size,
            file_hash: f.file_hash.clone(),
            total_chunks,
            chunk_size,
        });
        proof {
            assert(files@.take(i + 1).drop_last() =~= files@.take(i as int));
            lemma_total_size_prefix(files@, i + 1);
        }
        total_size = total_size + f.file_size;
        i = i + 1;
    }
    assert(files@.take(files@.len() as int) =~= files@);
    let session_name = if files.len() == 1 {
        files[0].file_name.clone()
    } else {
        let mut s = String::new();
        push_char(&mut s, '\u{591a}');
        push_char(&mut s, '\u{4e2a}');
        push_char(&mut s, '\u{6587}');
        push_char(&mut s, '\u{4ef6}');
        assert(s@ =~= session_name_of(files@));
        s
    };
    FileListMetadata {
        session_id,
        session_name,
        total_files: files.len() as i64,
        total_size,
        files: entries,
    }
}

proof fn lemma_total_size_prefix(files: Seq<SourceFile>, k: int)
    requires
        0 <= k <= files.len(),
    ensures
        total_file_size(files.take(k)) <= total_file_size(files),
    decreases files.len(),
{
    if k < files.len() {
        assert(files.drop_last().take(k) =~= files.take(k));
        lemma_total_size_prefix(files.drop_last(), k);
    } else {
        assert(files.take(k) =~= files);
    }
}

/// Plans a session: a fresh session identifier and a fresh identifier for each file, then
/// the announcement `build_file_list` makes of them. No two of these identifiers are alike.
pub fn plan_session(files: &Vec<SourceFile>, chunk_size: usize) -> (l: FileListMetadata)
    requires
        chunk_size > 0,
        forall|i: int| 0 <= i < files@.len() ==> #[trigger] files@[i].file_size + chunk_size <= u64::MAX,
        total_file_size(files@) <= u64::MAX,
    ensures
        is_uuid_v4_text(l.session_id@),
        l.session_name@ == session_name_of(files@),
        l.total_files == files@.len() as i64,
        l.total_size == total_file_size(files@),
        l.files@.len() == files@.len(),
        forall|i: int| 0 <= i < files@.len() ==> {
            &&& is_uuid_v4_text(#[trigger] l.files@[i].file_id@)
            &&& describes(l.files@[i], l.files@[i].file_id, files@[i], chunk_size)
        },
        forall|i: int, j: int|
            0 <= i < files@.len() && 0 <= j < files@.len() && i != j ==> #[trigger] l.files@[i].file_id@
                != #[trigger] l.files@[j].file_id@,
        forall|i: int| 0 <= i < files@.len() ==> #[trigger] l.files@[i].file_id@ != l.session_id@,
{
    let session_id = new_uuid_string();
    let mut taken: Vec<String> = Vec::new();
    taken.push(session_id.clone());
    let mut ids: Vec<String> = Vec::new();
    let mut i: usize = 0;
    while i < files.len()
        invariant
            i <= files@.len(),
            ids@.len() == i,
            taken@.len() == i + 1,
            taken@[0]@ == session_id@,
            forall|k: int| 0 <= k < i ==> #[trigger] taken@[k + 1]@ == ids@[k]@,
            forall|k: int| 0 <= k < i ==> is_uuid_v4_text(#[trigger] ids@[k]@),
            forall|a: int, b: int| 0 <= a < b <= i ==> #[trigger] taken@[a]@ != #[trigger] taken@[b]@,
        decreases files@.len() - i,
    {
        let id = fresh_uuid(&taken);
        proof {
            assert forall|a: int| 0 <= a <= i implies taken@[a]@ != id@ by {
                if taken@[a]@ == id@ {
                    assert(is_taken(taken@, id@));
                }
            }
        }
        taken.push(id.clone());
        ids.push(id);
        i = i + 1;
    }
    let ghost id_list = ids@;
    let ghost all = taken@;
    let l = build_file_list(session_id, ids, files, chunk_size);
    assert forall|i: int| 0 <= i < files@.len() implies is_uuid_v4_text(#[trigger] l.files@[i].file_id@) by {
        assert(describes(l.files@[i], id_list[i], files@[i], chunk_size));
    }
    assert forall|a: int, b: int| 0 <= a < files@.len() && 0 <= b < files@.len() && a != b implies #[trigger] l.files@[a].file_id@
        != #[trigger] l.files@[b].file_id@ by {
        assert(describes(l.files@[a], id_list[a], files@[a], chunk_size));
        assert(describes(l.files@[b], id_list[b], files@[b], chunk_size));
        assert(all[a + 1]@ == id_list[a]@);
        assert(all[b + 1]@ == id_list[b]@);
        if a < b {
            assert(all[a + 1]@ != all[b + 1]@);
        } else {
            assert(all[b + 1]@ != all[a + 1]@);
        }
    }
    assert forall|a: int| 0 <= a < files@.len() implies #[trigger] l.files@[a].file_id@ != l.session_id@ by {
        assert(describes(l.files@[a], id_list[a], files@[a], chunk_size));
        assert(all[a + 1]@ == id_list[a]@);
        assert(all[0]@ != all[a + 1]@);
    }
    l
}

} // verus!
