//! How a file is cut into chunks for sending.
use vstd::prelude::*;
use crate::utils::hash::{calculate_crc32, crc32_of};

verus! {

/// A chunk index that names no chunk of the file.
#[derive(Debug, Clone, Copy, PartialEq, Eq)]
pub enum ChunkError {
    /// The chunk would start at or after the end of the file.
    OutOfRange,
}

/// Number of chunks of `chunk_size` bytes that cover `file_size` bytes (the last may be short).
pub open spec fn chunk_count(file_size: nat, chunk_size: nat) -> nat {
    ((file_size + chunk_size - 1) / chunk_size as int) as nat
}

/// Where chunk `chunk_index` starts: the index, read as a `u64`, times the chunk size.
pub open spec fn chunk_offset(chunk_index: i64, chunk_size: nat) -> nat {
    (chunk_index as u64) as nat * chunk_size
}

/// Length of the chunk that starts at `offset`: the chunk size, or what is left of the file
/// when less.
pub open spec fn chunk_len(file_size: nat, chunk_size: nat, offset: nat) -> nat {
    if chunk_size <= file_size - offset {
        chunk_size
    } else {
        (file_size - offset) as nat
    }
}

/// The bytes of chunk `i` of `content`: those from its offset on, as many as `chunk_len` says.
pub open spec fn chunk_bytes(content: Seq<u8>, chunk_size: nat, i: nat) -> Seq<u8> {
    let offset = i * chunk_size;
    content.subrange(offset as int, (offset + chunk_len(content.len(), chunk_size, offset)) as int)
}

/// Chunks `0 .. k` of `content`, joined in index order.
pub open spec fn chunks_joined(content: Seq<u8>, chunk_size: nat, k: nat) -> Seq<u8>
    decreases k,
{
    if k == 0 {
        Seq::empty()
    } else {
        chunks_joined(content, chunk_size, (k - 1) as nat) + chunk_bytes(content, chunk_size, (k - 1) as nat)
    }
}

/// The sending side's view of a file: its size and the chunk size it is cut with.
#[derive(Debug, Clone, Copy)]
pub struct FileSplitter {
    pub chunk_size: usize,
    pub file_size: u64,
}

impl FileSplitter {
    pub fn new(file_size: u64, chunk_size: usize) -> (s: Self)
        ensures
            s.file_size == file_size,
            s.chunk_size == chunk_size,
    {
        FileSplitter { chunk_size, file_size }
    }

    pub fn file_size(&self) -> (n: u64)
        ensures
            n == self.file_size,
    {
        self.file_size
    }

    /// Number of chunks, rounded up; computed in `u64`, then read as an `i64`.
    pub fn total_chunks(&self) -> (n: i64)
        requires
            self.chunk_size > 0,
            self.file_size + self.chunk_size <= u64::MAX,
        ensures
            n == #[verifier::truncate] (chunk_count(self.file_size as nat, self.chunk_size as nat) as i64),
    {
        #[verifier::truncate] (((self.file_size + self.chunk_size as u64 - 1) / self.chunk_size as u64) as i64)
    }

    /// Offset and length of chunk `chunk_index`: the length is the chunk size, or what is
    /// left of the file when less.
    pub fn chunk_span(&self, chunk_index: i64) -> (r: Result<(u64, usize), ChunkError>)
        requires
            chunk_offset(chunk_index, self.chunk_size as nat) <= u64::MAX,
        ensures
            match r {
                Ok((offset, len)) => {
                    &&& offset == chunk_offset(chunk_index, self.chunk_size as nat)
                    &&& offset < self.file_size
                    &&& self.file_size - offset <= usize::MAX ==> len == chunk_len(
                        self.file_size as nat,
                        self.chunk_size as nat,
                        offset as nat,
                    )
                    &&& len == if self.chunk_size <= ((self.file_size - offset) as usize) {
                        self.chunk_size
                    } else {
                        ((self.file_size - offset) as usize)
                    }
                },
                Err(e) => e == ChunkError::OutOfRange && chunk_offset(chunk_index, self.chunk_size as nat)
                    >= self.file_size,
            },
    {
        let offset = (chunk_index as u64) * (self.chunk_size as u64);
        if offset >= self.file_size {
            return Err(ChunkError::OutOfRange);
        }
        let remaining = (self.file_size - offset) as usize;
        let len = if self.chunk_size <= remaining { self.chunk_size } else { remaining };
        Ok((offset, len))
    }

    /// What a read of a chunk hands back: the bytes actually read (`buffer` cut to
    /// `bytes_read`) and their CRC-32.
    pub fn finish_chunk(&self, buffer: Vec<u8>, bytes_read: usize) -> (r: (Vec<u8>, u32))
        ensures
            r.0@ == if bytes_read <= buffer@.len() { buffer@.take(bytes_read as int) } else { buffer@ },
            r.1 == crc32_of(r.0@),
    {
        let mut data = buffer;
        data.truncate(bytes_read);
        let crc = calculate_crc32(data.as_slice());
        (data, crc)
    }
}

/// Chunks tile the file: chunk `i` (for `i >= 0`) starts inside the file exactly when `i` is
/// below the chunk count; every chunk but the last is full, and the last one ends at the end
/// of the file.
pub proof fn lemma_chunks_tile_file(file_size: nat, chunk_size: nat, i: nat)
    requires
        chunk_size > 0,
    ensures
        (i * chunk_size < file_size) <==> (i < chunk_count(file_size, chunk_size)),
        i + 1 < chunk_count(file_size, chunk_size) ==> (i + 1) * chunk_size <= file_size,
        i + 1 == chunk_count(file_size, chunk_size) ==> file_size <= (i + 1) * chunk_size,
{
    let n = chunk_count(file_size, chunk_size);
    let a = file_size + chunk_size - 1;
    vstd::arithmetic::div_mod::lemma_fundamental_div_mod(a as int, chunk_size as int);
    vstd::arithmetic::div_mod::lemma_mod_pos_bound(a as int, chunk_size as int);
    let r = a % chunk_size as int;
    assert(a == chunk_size * n + r);
    assert((i * chunk_size < file_size) <==> (i < n)) by (nonlinear_arith)
        requires
            a == chunk_size * n + r,
            0 <= r < chunk_size,
            a == file_size + chunk_size - 1,
            chunk_size > 0,
    ;
    assert(i + 1 < n ==> (i + 1) * chunk_size <= file_size) by (nonlinear_arith)
        requires
            a == chunk_size * n + r,
            0 <= r < chunk_size,
            a == file_size + chunk_size - 1,
            chunk_size > 0,
    ;
    assert(i + 1 == n ==> file_size <= (i + 1) * chunk_size) by (nonlinear_arith)
        requires
            a == chunk_size * n + r,
            0 <= r < chunk_size,
            a == file_size + chunk_size - 1,
            chunk_size > 0,
    ;
}

proof fn lemma_chunks_joined_prefix(content: Seq<u8>, chunk_size: nat, k: nat)
    requires
        chunk_size > 0,
        k <= chunk_count(content.len(), chunk_size),
    ensures
        k * chunk_size <= content.len() ==> chunks_joined(content, chunk_size, k) == content.take(
            (k * chunk_size) as int,
        ),
        k * chunk_size > content.len() ==> chunks_joined(content, chunk_size, k) == content,
    decreases k,
{
    let n = content.len();
    if k == 0 {
        assert(k * chunk_size == 0) by (nonlinear_arith)
            requires
                k == 0,
        ;
        assert(content.take(0) =~= Seq::<u8>::empty());
    } else {
        let j = (k - 1) as nat;
        lemma_chunks_joined_prefix(content, chunk_size, j);
        lemma_chunks_tile_file(n, chunk_size, j);
        assert(k * chunk_size == j * chunk_size + chunk_size) by (nonlinear_arith)
            requires
                k == j + 1,
        ;
        let off = j * chunk_size;
        assert(off < n);
        let prev = content.take(off as int);
        let c = chunk_bytes(content, chunk_size, j);
        assert(chunks_joined(content, chunk_size, j) == prev);
        assert(chunks_joined(content, chunk_size, k) == prev + c);
        if k * chunk_size <= n {
            assert(chunk_len(n, chunk_size, off) == chunk_size);
            assert(prev + c =~= content.take((k * chunk_size) as int));
        } else {
            assert(chunk_len(n, chunk_size, off) == n - off);
            assert(prev + c =~= content);
        }
    }
}

/// Chunks read back in index order give the whole content: joined, chunks `0 ..` up to the
/// chunk count are the content itself; every chunk but the last is full, and the last holds
/// between one byte and a full chunk.
pub proof fn lemma_chunks_join_to_content(content: Seq<u8>, chunk_size: nat)
    requires
        chunk_size > 0,
    ensures
        chunks_joined(content, chunk_size, chunk_count(content.len(), chunk_size)) == content,
        forall|i: nat|
            i + 1 < chunk_count(content.len(), chunk_size) ==> #[trigger] chunk_bytes(content, chunk_size, i).len()
                == chunk_size,
        chunk_count(content.len(), chunk_size) > 0 ==> 1 <= chunk_bytes(
            content,
            chunk_size,
            (chunk_count(content.len(), chunk_size) - 1) as nat,
        ).len() <= chunk_size,
{
    let n = content.len();
    let count = chunk_count(n, chunk_size);
    lemma_chunks_joined_prefix(content, chunk_size, count);
    if count == 0 {
        lemma_chunks_tile_file(n, chunk_size, 0);
        assert(0 * chunk_size == 0) by (nonlinear_arith);
        assert(content.take(0) =~= content);
    } else {
        let last = (count - 1) as nat;
        lemma_chunks_tile_file(n, chunk_size, last);
        assert(count * chunk_size == last * chunk_size + chunk_size) by (nonlinear_arith)
            requires
                count == last + 1,
        ;
        if count * chunk_size <= n {
            assert(content.take((count * chunk_size) as int) =~= content);
        }
    }
    assert forall|i: nat| i + 1 < count implies #[trigger] chunk_bytes(content, chunk_size, i).len()
        == chunk_size by {
        lemma_chunks_tile_file(n, chunk_size, i);
        assert((i + 1) * chunk_size == i * chunk_size + chunk_size) by (nonlinear_arith);
    }
}

} // verus!
