//! How received chunks are checked and placed in the file being rebuilt.
use vstd::prelude::*;
use crate::file::splitter::{ChunkError, chunk_bytes, chunk_count, chunk_len, chunk_offset, lemma_chunks_tile_file};
use crate::utils::hash::{calculate_crc32, crc32_of};

verus! {

/// Where a received chunk goes: nowhere (`Ok(None)`) when its CRC-32 differs from the
/// expected one, an error when it would start at or past the end of the file, and otherwise
/// the offset to write it at.
pub open spec fn merge_decision(file_size: u64, chunk_size: usize, chunk_index: i64, data: Seq<u8>, expected_crc32: u32) -> Result<Option<u64>, ChunkError> {
    if crc32_of(data) != expected_crc32 {
        Ok(None)
    } else if chunk_offset(chunk_index, chunk_size as nat) >= file_size {
        Err(ChunkError::OutOfRange)
    } else {
        Ok(Some(chunk_offset(chunk_index, chunk_size as nat) as u64))
    }
}

/// The receiving side's view of a file being rebuilt: its size and the chunk size.
#[derive(Debug, Clone, Copy)]
pub struct FileMerger {
    pub chunk_size: usize,
    pub file_size: u64,
}

impl FileMerger {
    pub fn new(file_size: u64, chunk_size: usize) -> (m: Self)
        ensures
            m.file_size == file_size,
            m.chunk_size == chunk_size,
    {
        FileMerger { chunk_size, file_size }
    }

    pub fn file_size(&self) -> (n: u64)
        ensures
            n == self.file_size,
    {
        self.file_size
    }

    pub fn chunk_size(&self) -> (n: usize)
        ensures
            n == self.chunk_size,
    {
        self.chunk_size
    }

    /// Decides where a received chunk goes (see `merge_decision`).
    pub fn write_chunk_offset(&self, chunk_index: i64, data: &[u8], expected_crc32: u32) -> (r: Result<Option<u64>, ChunkError>)
        requires
            crc32_of(data@) == expected_crc32 ==> chunk_offset(chunk_index, self.chunk_size as nat) <= u64::MAX,
        ensures
            r == merge_decision(self.file_size, self.chunk_size, chunk_index, data@, expected_crc32),
    {
        let actual = calculate_crc32(data);
        if actual != expected_crc32 {
            return Ok(None);
        }
        let offset = (chunk_index as u64) * (self.chunk_size as u64);
        if offset >= self.file_size {
            return Err(ChunkError::OutOfRange);
        }
        Ok(Some(offset))
    }
}

/// A file's bytes after `data` is written at `offset`: those bytes are replaced, the rest
/// stay, and a write past the end lengthens the file (a gap before it reads as zeros).
pub open spec fn write_at(file: Seq<u8>, offset: int, data: Seq<u8>) -> Seq<u8> {
    let end = offset + data.len();
    let len = if end > file.len() {
        end
    } else {
        file.len() as int
    };
    Seq::new(
        len as nat,
        |p: int|
            if offset <= p < end {
                data[p - offset]
            } else if p < file.len() {
                file[p]
            } else {
                0u8
            },
    )
}

/// The file after chunk `i` of `content` arrives intact (with its own CRC-32) and is written
/// where `merge_decision` places it; nothing is written when it places it nowhere.
pub open spec fn receive_chunk(file: Seq<u8>, merger: FileMerger, content: Seq<u8>, i: i64) -> Seq<u8> {
    let data = chunk_bytes(content, merger.chunk_size as nat, i as nat);
    match merge_decision(merger.file_size, merger.chunk_size, i, data, crc32_of(data)) {
        Ok(Some(offset)) => write_at(file, offset as int, data),
        _ => file,
    }
}

/// The file after the chunks of `content` named in `order` arrive, one after another.
pub open spec fn receive_chunks(file: Seq<u8>, merger: FileMerger, content: Seq<u8>, order: Seq<i64>) -> Seq<u8>
    decreases order.len(),
{
    if order.len() == 0 {
        file
    } else {
        receive_chunk(receive_chunks(file, merger, content, order.drop_last()), merger, content, order.last())
    }
}

/// Whether chunk `j` is among those named in `order`.
pub open spec fn names_chunk(order: Seq<i64>, j: int) -> bool {
    exists|k: int| 0 <= k < order.len() && order[k] as int == j
}

proof fn lemma_receive_chunks_positions(file: Seq<u8>, merger: FileMerger, content: Seq<u8>, order: Seq<i64>)
    requires
        merger.chunk_size > 0,
        content.len() == merger.file_size,
        file.len() == merger.file_size,
        forall|k: int|
            0 <= k < order.len() ==> 0 <= #[trigger] order[k] < chunk_count(
                merger.file_size as nat,
                merger.chunk_size as nat,
            ),
    ensures
        ({
            let r = receive_chunks(file, merger, content, order);
            &&& r.len() == file.len()
            &&& forall|p: int|
                0 <= p < file.len() ==> #[trigger] r[p] == if names_chunk(order, p / merger.chunk_size as int) {
                    content[p]
                } else {
                    file[p]
                }
        }),
    decreases order.len(),
{
    if order.len() > 0 {
        let rest = order.drop_last();
        lemma_receive_chunks_positions(file, merger, content, rest);
        let prev = receive_chunks(file, merger, content, rest);
        let i = order.last();
        let cs = merger.chunk_size as nat;
        let n = merger.file_size as nat;
        lemma_chunks_tile_file(n, cs, i as nat);
        let off = (i as nat) * cs;
        assert(chunk_offset(i, cs) == off);
        let data = chunk_bytes(content, cs, i as nat);
        let len = chunk_len(n, cs, off);
        assert(data.len() == len);
        assert(merge_decision(merger.file_size, merger.chunk_size, i, data, crc32_of(data)) == Ok::<
            Option<u64>,
            ChunkError,
        >(Some(off as u64)));
        let r = receive_chunks(file, merger, content, order);
        assert(r == write_at(prev, off as int, data));
        assert forall|p: int| 0 <= p < file.len() implies #[trigger] r[p] == if names_chunk(
            order,
            p / cs as int,
        ) {
            content[p]
        } else {
            file[p]
        } by {
            let q = p / cs as int;
            vstd::arithmetic::div_mod::lemma_fundamental_div_mod(p, cs as int);
            vstd::arithmetic::div_mod::lemma_mod_pos_bound(p, cs as int);
            assert((q == i as int) <==> (off <= p < off + len)) by (nonlinear_arith)
                requires
                    p == cs * q + p % (cs as int),
                    0 <= p % (cs as int) < cs,
                    off == (i as int) * cs,
                    len == cs || (len == n - off && n - off < cs),
                    0 <= p < n,
                    cs > 0,
            ;
            if names_chunk(rest, q) {
                let k = choose|k: int| 0 <= k < rest.len() && rest[k] as int == q;
                assert(order[k] == rest[k]);
            }
            if q == i as int {
                assert(order[order.len() - 1] == i);
            }
            if names_chunk(order, q) && q != i as int {
                let k = choose|k: int| 0 <= k < order.len() && order[k] as int == q;
                assert(k != order.len() - 1);
                assert(rest[k] == order[k]);
            }
        }
    }
}

/// Chunks can arrive in any order, repeats allowed: once every chunk of `content` has
/// arrived intact and been written where `merge_decision` places it, the file holds `content`,
/// whatever it held before; and each of those chunks is placed (none is refused).
pub proof fn lemma_chunks_in_any_order_rebuild(file: Seq<u8>, merger: FileMerger, content: Seq<u8>, order: Seq<i64>)
    requires
        merger.chunk_size > 0,
        content.len() == merger.file_size,
        file.len() == merger.file_size,
        forall|k: int|
            0 <= k < order.len() ==> 0 <= #[trigger] order[k] < chunk_count(
                merger.file_size as nat,
                merger.chunk_size as nat,
            ),
        forall|j: int|
            0 <= j < chunk_count(merger.file_size as nat, merger.chunk_size as nat) ==> #[trigger] names_chunk(
                order,
                j,
            ),
    ensures
        receive_chunks(file, merger, content, order) == content,
        forall|k: int|
            #![trigger order[k]]
            0 <= k < order.len() ==> ({
                let data = chunk_bytes(content, merger.chunk_size as nat, order[k] as nat);
                merge_decision(merger.file_size, merger.chunk_size, order[k], data, crc32_of(data))
                    == Ok::<Option<u64>, ChunkError>(
                    Some(chunk_offset(order[k], merger.chunk_size as nat) as u64),
                )
            }),
{
    assert forall|k: int| #![trigger order[k]] 0 <= k < order.len() implies ({
        let data = chunk_bytes(content, merger.chunk_size as nat, order[k] as nat);
        merge_decision(merger.file_size, merger.chunk_size, order[k], data, crc32_of(data))
            == Ok::<Option<u64>, ChunkError>(Some(chunk_offset(order[k], merger.chunk_size as nat) as u64))
    }) by {
        lemma_chunks_tile_file(merger.file_size as nat, merger.chunk_size as nat, order[k] as nat);
    }
    lemma_receive_chunks_positions(file, merger, content, order);
    let r = receive_chunks(file, merger, content, order);
    let cs = merger.chunk_size as nat;
    assert forall|p: int| 0 <= p < content.len() implies r[p] == content[p] by {
        let q = p / cs as int;
        vstd::arithmetic::div_mod::lemma_div_pos_is_pos(p, cs as int);
        lemma_chunks_tile_file(merger.file_size as nat, cs, q as nat);
        vstd::arithmetic::div_mod::lemma_fundamental_div_mod(p, cs as int);
        vstd::arithmetic::div_mod::lemma_mod_pos_bound(p, cs as int);
        assert((q as nat) * cs <= p) by (nonlinear_arith)
            requires
                p == cs * q + p % (cs as int),
                0 <= p % (cs as int),
                q >= 0,
        ;
        assert(names_chunk(order, q));
    }
    assert(r =~= content);
}

/// Whether `file` already holds chunk `j` of `content`: the bytes where that chunk goes are
/// the chunk's bytes.
pub open spec fn holds_chunk(file: Seq<u8>, content: Seq<u8>, chunk_size: nat, j: nat) -> bool {
    let offset = j * chunk_size;
    file.subrange(offset as int, (offset + chunk_len(content.len(), chunk_size, offset)) as int)
        == chunk_bytes(content, chunk_size, j)
}

/// Position `p` of a file lies in chunk `p / chunk_size`, an existing chunk.
proof fn lemma_chunk_of_position(n: nat, chunk_size: nat, p: int)
    requires
        chunk_size > 0,
        0 <= p < n,
    ensures
        ({
            let q = p / chunk_size as int;
            let offset = (q as nat) * chunk_size;
            &&& 0 <= q < chunk_count(n, chunk_size)
            &&& offset <= p < offset + chunk_len(n, chunk_size, offset)
        }),
{
    let cs = chunk_size as int;
    let q = p / cs;
    vstd::arithmetic::div_mod::lemma_div_pos_is_pos(p, cs);
    vstd::arithmetic::div_mod::lemma_fundamental_div_mod(p, cs);
    vstd::arithmetic::div_mod::lemma_mod_pos_bound(p, cs);
    let offset = (q as nat) * chunk_size;
    assert(offset <= p < offset + cs) by (nonlinear_arith)
        requires
            p == cs * q + p % cs,
            0 <= p % cs < cs,
            offset == q * cs,
            q >= 0,
    ;
    lemma_chunks_tile_file(n, chunk_size, q as nat);
}

/// Resuming rebuilds the file: when the file already holds the chunks named done, and every
/// other chunk then arrives intact (in any order, repeats allowed) and is written where
/// `merge_decision` places it, the file ends as `content`; the chunks held before the
/// interruption keep their bytes throughout.
pub proof fn lemma_resumed_chunks_rebuild(
    file: Seq<u8>,
    merger: FileMerger,
    content: Seq<u8>,
    done: Seq<i64>,
    order: Seq<i64>,
)
    requires
        merger.chunk_size > 0,
        content.len() == merger.file_size,
        file.len() == merger.file_size,
        forall|k: int|
            0 <= k < done.len() && 0 <= #[trigger] done[k] < chunk_count(
                merger.file_size as nat,
                merger.chunk_size as nat,
            ) ==> holds_chunk(file, content, merger.chunk_size as nat, done[k] as nat),
        forall|k: int|
            0 <= k < order.len() ==> 0 <= #[trigger] order[k] < chunk_count(
                merger.file_size as nat,
                merger.chunk_size as nat,
            ),
        forall|j: int|
            0 <= j < chunk_count(merger.file_size as nat, merger.chunk_size as nat) ==> #[trigger] names_chunk(done, j)
                || names_chunk(order, j),
    ensures
        receive_chunks(file, merger, content, order) == content,
        forall|k: int|
            0 <= k < done.len() && 0 <= #[trigger] done[k] < chunk_count(
                merger.file_size as nat,
                merger.chunk_size as nat,
            ) ==> holds_chunk(
                receive_chunks(file, merger, content, order),
                content,
                merger.chunk_size as nat,
                done[k] as nat,
            ),
{
    lemma_receive_chunks_positions(file, merger, content, order);
    let r = receive_chunks(file, merger, content, order);
    let cs = merger.chunk_size as nat;
    let n = merger.file_size as nat;
    assert forall|p: int| 0 <= p < content.len() implies r[p] == content[p] by {
        lemma_chunk_of_position(n, cs, p);
        let q = p / cs as int;
        if !names_chunk(order, q) {
            assert(names_chunk(done, q));
            let k = choose|k: int| 0 <= k < done.len() && done[k] as int == q;
            assert(holds_chunk(file, content, cs, done[k] as nat));
            let offset = (q as nat) * cs;
            let len = chunk_len(n, cs, offset);
            assert(file.subrange(offset as int, (offset + len) as int)[p - offset] == file[p]);
            assert(chunk_bytes(content, cs, q as nat)[p - offset] == content[p]);
        }
    }
    assert(r =~= content);
}

} // verus!
