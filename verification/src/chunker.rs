//! Splitting data into chunks, and putting it together again.
use crate::digest::{compute_chunk_hash_at, content_id_at};
use crate::types::{ChunkId, FileId};
use vstd::prelude::*;

verus! {

/// Splits data into pieces of one size.
pub struct Chunker {
    chunk_size: usize,
}

/// How many pieces of `size` bytes, the last one perhaps shorter, make up `len` bytes.
pub open spec fn piece_count(len: nat, size: nat) -> nat {
    if size == 0 {
        0
    } else {
        ((len + size - 1) / size as int) as nat
    }
}

/// The piece at place `k`.
pub open spec fn piece(data: Seq<u8>, size: nat, k: int) -> Seq<u8> {
    data.subrange(
        k * size,
        if (k + 1) * size <= data.len() {
            (k + 1) * size
        } else {
            data.len() as int
        },
    )
}

/// `out` is the data in pieces, each named by its content at its place in the file.
pub open spec fn is_chunking(
    out: Seq<(ChunkId, Vec<u8>)>,
    data: Seq<u8>,
    size: nat,
    offset: u64,
    file: FileId,
) -> bool {
    &&& out.len() == piece_count(data.len(), size)
    &&& forall|k: int|
        0 <= k < out.len() ==> (#[trigger] out[k]).1@ == piece(data, size, k) && out[k].0
            == content_id_at(piece(data, size, k), (offset + k * size) as u64, file)
}

/// Byte strings one behind the other.
pub open spec fn joined_bytes(pieces: Seq<Seq<u8>>) -> Seq<u8>
    decreases pieces.len(),
{
    if pieces.len() == 0 {
        Seq::empty()
    } else {
        joined_bytes(pieces.drop_last()) + pieces.last()
    }
}

pub open spec fn bytes_of(v: Seq<Vec<u8>>) -> Seq<Seq<u8>> {
    v.map_values(|b: Vec<u8>| b@)
}

pub(crate) proof fn piece_count_steps(len: nat, size: nat, k: int)
    requires
        size > 0,
        0 <= k,
    ensures
        k < piece_count(len, size) <==> k * size < len,
{
    let n = piece_count(len, size) as int;
    let q = len + size - 1;
    vstd::arithmetic::div_mod::lemma_fundamental_div_mod(q as int, size as int);
    assert(n == q / size as int);
    let m = q % size as int;
    assert(q == size * n + m);
    assert(0 <= m < size);
    if k < n {
        assert(k * size <= (n - 1) * size) by (nonlinear_arith)
            requires
                k <= n - 1,
                size > 0,
        ;
        assert((n - 1) * size == n * size - size) by (nonlinear_arith);
        assert(size * n == n * size) by (nonlinear_arith);
    } else {
        assert(k * size >= n * size) by (nonlinear_arith)
            requires
                k >= n,
                size > 0,
        ;
        assert(size * n == n * size) by (nonlinear_arith);
    }
}

impl Chunker {
    pub closed spec fn size(&self) -> nat {
        self.chunk_size as nat
    }

    pub fn new(chunk_size: usize) -> (c: Chunker)
        requires
            chunk_size > 0,
        ensures
            c.size() == chunk_size,
    {
        Chunker { chunk_size }
    }

    pub fn chunk_size(&self) -> (r: usize)
        ensures
            r == self.size(),
    {
        self.chunk_size
    }

    /// Splits data that starts at the beginning of a file.
    pub fn chunk_data(&self, data: &Vec<u8>, file_id: FileId) -> (r: Vec<(ChunkId, Vec<u8>)>)
        requires
            self.size() > 0,
            data@.len() <= u64::MAX,
        ensures
            is_chunking(r@, data@, self.size(), 0, file_id),
    {
        self.chunk_data_at(data, 0, file_id)
    }

    /// Splits data that starts at an offset of a file.
    pub fn chunk_data_at(&self, data: &Vec<u8>, file_offset: u64, file_id: FileId) -> (r: Vec<
        (ChunkId, Vec<u8>),
    >)
        requires
            self.size() > 0,
            file_offset + data@.len() <= u64::MAX,
        ensures
            is_chunking(r@, data@, self.size(), file_offset, file_id),
    {
        let mut out: Vec<(ChunkId, Vec<u8>)> = Vec::new();
        let n: usize = data.len();
        let mut at: usize = 0;
        let ghost size = self.size();
        proof {
            piece_count_steps(n as nat, size, 0);
        }
        while at < n
            invariant
                n == data@.len(),
                size == self.size(),
                size > 0,
                file_offset + n <= u64::MAX,
                at <= n,
                at < n ==> at == out@.len() * size,
                out@.len() <= piece_count(n as nat, size),
                at >= n ==> out@.len() == piece_count(n as nat, size),
                forall|k: int|
                    0 <= k < out@.len() ==> (#[trigger] out@[k]).1@ == piece(data@, size, k)
                        && out@[k].0 == content_id_at(
                        piece(data@, size, k),
                        (file_offset + k * size) as u64,
                        file_id,
                    ),
            decreases n - at,
        {
            let ghost k = out@.len() as int;
            let left: usize = n - at;
            let len: usize = if self.chunk_size <= left {
                self.chunk_size
            } else {
                left
            };
            proof {
                assert((k + 1) * size == k * size + size) by (nonlinear_arith);
                piece_count_steps(n as nat, size, k);
                piece_count_steps(n as nat, size, k + 1);
            }
            let mut part: Vec<u8> = Vec::new();
            let mut j: usize = 0;
            while j < len
                invariant
                    j <= len,
                    at + len <= n,
                    n == data@.len(),
                    part@ =~= data@.subrange(at as int, at + j),
                decreases len - j,
            {
                part.push(data[at + j]);
                j += 1;
            }
            assert(part@ =~= piece(data@, size, k));
            let place: u64 = file_offset + at as u64;
            let id: ChunkId = ChunkId::from_hash(
                compute_chunk_hash_at(part.as_slice(), place, file_id),
            );
            out.push((id, part));
            at = at + len;
        }
        out
    }

    /// Puts pieces together again.
    pub fn reassemble_chunks(&self, pieces: Vec<Vec<u8>>) -> (r: Vec<u8>)
        ensures
            r@ == joined_bytes(bytes_of(pieces@)),
    {
        let ghost ps = bytes_of(pieces@);
        let mut out: Vec<u8> = Vec::new();
        let mut i: usize = 0;
        assert(ps.take(0) =~= Seq::<Seq<u8>>::empty());
        while i < pieces.len()
            invariant
                i <= pieces@.len(),
                ps == bytes_of(pieces@),
                out@ == joined_bytes(ps.take(i as int)),
            decreases pieces@.len() - i,
        {
            proof {
                assert(ps.take(i + 1).drop_last() =~= ps.take(i as int));
                assert(ps.take(i + 1).last() == pieces@[i as int]@);
            }
            let ghost before = out@;
            out.extend_from_slice(pieces[i].as_slice());
            assert(out@ =~= before + pieces@[i as int]@);
            i += 1;
        }
        assert(ps.take(i as int) =~= ps);
        out
    }
}

/// The first pieces make up the data as far as they reach.
pub(crate) proof fn pieces_make_prefix(pieces: Seq<Seq<u8>>, data: Seq<u8>, size: nat)
    requires
        size > 0,
        pieces.len() <= piece_count(data.len(), size),
        forall|k: int| 0 <= k < pieces.len() ==> #[trigger] pieces[k] == piece(data, size, k),
    ensures
        joined_bytes(pieces) == data.take(
            if pieces.len() * size <= data.len() {
                (pieces.len() * size) as int
            } else {
                data.len() as int
            },
        ),
    decreases pieces.len(),
{
    if pieces.len() == 0 {
        assert(joined_bytes(pieces) =~= data.take(0));
    } else {
        let init = pieces.drop_last();
        let k = init.len() as int;
        pieces_make_prefix(init, data, size);
        piece_count_steps(data.len(), size, k);
        assert((k + 1) * size == k * size + size) by (nonlinear_arith);
        assert(pieces.last() == piece(data, size, k));
        let end = if (k + 1) * size <= data.len() {
            (k + 1) * size
        } else {
            data.len() as int
        };
        assert(joined_bytes(pieces) =~= data.take(end));
    }
}

/// Data that was split and put together again is what it was.
pub proof fn chunking_round_trip(
    chunks: Seq<(ChunkId, Vec<u8>)>,
    data: Seq<u8>,
    size: nat,
    offset: u64,
    file: FileId,
)
    requires
        size > 0,
        is_chunking(chunks, data, size, offset, file),
    ensures
        joined_bytes(chunks.map_values(|c: (ChunkId, Vec<u8>)| c.1@)) == data,
{
    let pieces = chunks.map_values(|c: (ChunkId, Vec<u8>)| c.1@);
    assert forall|k: int| 0 <= k < pieces.len() implies #[trigger] pieces[k] == piece(
        data,
        size,
        k,
    ) by {
        assert(pieces[k] == chunks[k].1@);
    }
    pieces_make_prefix(pieces, data, size);
    let n = pieces.len() as int;
    piece_count_steps(data.len(), size, n);
    assert(data.take(data.len() as int) =~= data);
}

/// No piece is empty, and none is longer than the size.
pub proof fn pieces_are_full_sized(
    chunks: Seq<(ChunkId, Vec<u8>)>,
    data: Seq<u8>,
    size: nat,
    offset: u64,
    file: FileId,
    k: int,
)
    requires
        size > 0,
        is_chunking(chunks, data, size, offset, file),
        0 <= k < chunks.len(),
    ensures
        0 < chunks[k].1@.len() <= size,
        k + 1 < chunks.len() ==> chunks[k].1@.len() == size,
{
    assert(chunks[k].1@ == piece(data, size, k));
    piece_count_steps(data.len(), size, k);
    piece_count_steps(data.len(), size, k + 1);
    assert((k + 1) * size == k * size + size) by (nonlinear_arith);
}

} // verus!
