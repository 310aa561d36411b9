//! Appending to a file, step by step: read the chunk that the file ends in, write it anew with what
//! is appended, and store the record.
use crate::chunker::{is_chunking, joined_bytes, piece, piece_count, Chunker};
use crate::chunker::{piece_count_steps, pieces_make_prefix};
use crate::metadata::failed;
use crate::protocol::Response;
use crate::text::join;
use crate::types::{ChunkId, ChunkLocation, ErrorCode, FileId, FileMetadata, FileRec, Loc, NodeId};
use crate::write_path::{
    append_data, append_nothing, append_quorum, appended, appended_locations, finish_append,
    immediate, new_location, quorum_text, room_in_chunk, total_size, written_location,
    AppendStart, AppendedChunk,
};
use vstd::prelude::*;

verus! {

/// An append under way.
#[derive(Debug)]
pub struct Append {
    metadata: FileMetadata,
    took_tail: bool,
    tail_len: u64,
    data: Vec<u8>,
    chunks: Vec<(ChunkId, Vec<u8>)>,
    written: Vec<AppendedChunk>,
    chunk_size: usize,
    at: u64,
}

pub ghost struct AppendState {
    /// The file as it was.
    pub rec: FileRec,
    /// Its last chunk is written anew.
    pub took_tail: bool,
    /// How much of the data was in the file already.
    pub tail_len: int,
    /// What is written.
    pub data: Seq<u8>,
    /// The same in chunks.
    pub chunks: Seq<(ChunkId, Vec<u8>)>,
    /// What has been written of it.
    pub written: Seq<AppendedChunk>,
    pub chunk_size: nat,
}

/// The chunks were written one after the other, as far as `written` reaches.
pub open spec fn writes_follow(
    chunks: Seq<(ChunkId, Vec<u8>)>,
    written: Seq<AppendedChunk>,
) -> bool {
    &&& written.len() <= chunks.len()
    &&& forall|k: int|
        0 <= k < written.len() ==> (#[trigger] written[k]).chunk_id == chunks[k].0
            && written[k].size == chunks[k].1@.len()
}

impl AppendState {
    pub open spec fn wf(self) -> bool {
        &&& self.chunk_size > 0
        &&& is_chunking(self.chunks, self.data, self.chunk_size, 0, self.rec.id)
        &&& writes_follow(self.chunks, self.written)
        &&& 0 <= self.tail_len <= self.data.len()
        &&& self.tail_len <= self.rec.size
        &&& self.rec.size - self.tail_len + self.data.len() <= u64::MAX
        &&& self.took_tail ==> self.rec.chunk_locations.len() > 0
    }

    /// Everything was written.
    pub open spec fn complete(self) -> bool {
        self.written.len() == self.chunks.len()
    }

    /// How many of the file's chunks stay as they are.
    pub open spec fn kept(self) -> int {
        if self.took_tail {
            self.rec.chunk_locations.len() - 1
        } else {
            self.rec.chunk_locations.len() as int
        }
    }

    /// The file once everything is written.
    pub open spec fn finished(self, now_secs: u64) -> FileRec {
        appended(self.rec, self.took_tail, self.tail_len, self.written, now_secs)
    }

    /// Where the record says that a chunk of the append is.
    pub open spec fn added(self, now_secs: u64, k: int) -> Loc {
        self.finished(now_secs).chunk_locations[self.kept() + k]
    }

    /// Where in the file a chunk goes.
    pub open spec fn place_of(self, k: int) -> u64 {
        (self.rec.size - self.tail_len + k * self.chunk_size) as u64
    }

    /// Where in the file the next chunk goes.
    pub open spec fn place(self) -> int {
        self.rec.size - self.tail_len + total_size(self.written)
    }
}

impl View for Append {
    type V = AppendState;

    closed spec fn view(&self) -> AppendState {
        AppendState {
            rec: self.metadata@,
            took_tail: self.took_tail,
            tail_len: self.tail_len as int,
            data: self.data@,
            chunks: self.chunks@,
            written: self.written@,
            chunk_size: self.chunk_size as nat,
        }
    }
}

/// An append begins with these.
pub open spec fn begun(
    start: AppendStart,
    tail: Option<Result<Vec<u8>, String>>,
    new_data: Seq<u8>,
    chunk_size: nat,
    s: AppendState,
) -> bool {
    let kept = match tail {
        Some(Ok(t)) => t@,
        _ => Seq::empty(),
    };
    &&& s.rec == start.metadata@
    &&& s.took_tail == (tail is Some)
    &&& s.tail_len == kept.len()
    &&& s.data == kept + new_data
    &&& s.written.len() == 0
    &&& s.chunk_size == chunk_size
}

/// What has been written is what the data begins with.
proof fn written_bytes(s: AppendState)
    requires
        s.chunk_size > 0,
        is_chunking(s.chunks, s.data, s.chunk_size, 0, s.rec.id),
        writes_follow(s.chunks, s.written),
    ensures
        total_size(s.written) <= s.data.len(),
        s.written.len() == s.chunks.len() ==> total_size(s.written) == s.data.len(),
{
    let n = s.written.len();
    let pieces = Seq::new(n, |k: int| s.chunks[k].1@);
    sizes_add_up(s.chunks, s.written);
    assert forall|k: int| 0 <= k < pieces.len() implies #[trigger] pieces[k] == piece(
        s.data,
        s.chunk_size,
        k,
    ) by {
        assert(s.chunks[k].1@ == piece(s.data, s.chunk_size, k));
    }
    pieces_make_prefix(pieces, s.data, s.chunk_size);
    piece_count_steps(s.data.len(), s.chunk_size, n as int);
}

proof fn sizes_add_up(chunks: Seq<(ChunkId, Vec<u8>)>, written: Seq<AppendedChunk>)
    requires
        writes_follow(chunks, written),
    ensures
        total_size(written) == joined_bytes(
            Seq::new(written.len(), |k: int| chunks[k].1@),
        ).len(),
    decreases written.len(),
{
    let pieces = Seq::new(written.len(), |k: int| chunks[k].1@);
    if written.len() > 0 {
        sizes_add_up(chunks, written.drop_last());
        assert(pieces.drop_last() =~= Seq::new(
            written.drop_last().len(),
            |k: int| chunks[k].1@,
        ));
        assert(written.last() == written[written.len() - 1]);
    }
}

impl Append {
    /// The append is where it says it is.
    pub closed spec fn wf(&self) -> bool {
        self@.wf() && self.at == self@.place()
    }

    /// Begins to write, once the chunk that the file ends in was read, if it ends in one.
    pub fn begins(
        start: AppendStart,
        tail: Option<Result<Vec<u8>, String>>,
        new_data: Vec<u8>,
        chunker: &Chunker,
    ) -> (r: Result<Append, Response>)
        requires
            chunker.size() > 0,
            (tail is Some) == (start.tail is Some),
            tail is Some ==> start.metadata@.chunk_locations.len() > 0,
            match tail {
                Some(Ok(t)) => t@.len() <= start.metadata@.size,
                _ => true,
            },
            start.metadata@.size + new_data@.len() <= u64::MAX,
        ensures
            match tail {
                Some(Err(why)) => r is Err && r->Err_0.refuses(
                    "Failed to read partial tail chunk: "@ + why@,
                    ErrorCode::IOError,
                ),
                _ => r is Ok && (r->Ok_0).wf() && (r->Ok_0)@.wf() && begun(
                    start,
                    tail,
                    new_data@,
                    chunker.size(),
                    (r->Ok_0)@,
                ),
            },
    {
        let took_tail: bool = tail.is_some();
        let kept: Option<Vec<u8>> = match tail {
            Some(Ok(t)) => Some(t),
            Some(Err(why)) => {
                return Err(
                    Response::refusal(
                        join("Failed to read partial tail chunk: ", why.as_str()),
                        ErrorCode::IOError,
                    ),
                );
            },
            None => None,
        };
        let ghost nd = new_data@;
        let ghost kv = if kept is Some {
            (kept->0)@
        } else {
            Seq::<u8>::empty()
        };
        let (data, tail_len): (Vec<u8>, u64) = append_data(kept, new_data);
        assert(data@ =~= kv + nd);
        let chunks: Vec<(ChunkId, Vec<u8>)> = chunker.chunk_data(&data, start.metadata.id);
        let written: Vec<AppendedChunk> = Vec::new();
        let at: u64 = start.metadata.size - tail_len;
        Ok(
            Append {
                metadata: start.metadata,
                took_tail,
                tail_len,
                data,
                chunks,
                written,
                chunk_size: chunker.chunk_size(),
                at,
            },
        )
    }

    /// The reply where there is nothing to write.
    pub fn nothing_to_write(&self) -> (r: Option<Response>)
        requires
            self.wf(),
            self@.wf(),
        ensures
            self@.data.len() > 0 ==> r is None,
            self@.data.len() == 0 ==> r is Some && match r->0 {
                Response::AppendFileResult { metadata, remaining_in_chunk } => metadata@
                    == self@.rec && remaining_in_chunk == self@.chunk_size - self@.rec.size as int
                    % self@.chunk_size as int,
                _ => false,
            },
    {
        proof {
            piece_count_steps(self@.data.len(), self@.chunk_size, 0);
        }
        if self.chunks.len() == 0 {
            Some(append_nothing(self.metadata.clone(), self.chunk_size as u64))
        } else {
            None
        }
    }

    /// The next chunk to write.
    pub fn next_chunk(&self) -> (r: Option<(ChunkId, Vec<u8>)>)
        requires
            self@.wf(),
        ensures
            self@.complete() ==> r is None,
            !self@.complete() ==> r is Some && (r->0).0 == self@.chunks[self@.written.len() as int].0
                && (r->0).1@ == self@.chunks[self@.written.len() as int].1@,
    {
        let n: usize = self.written.len();
        if n < self.chunks.len() {
            Some((self.chunks[n].0, self.chunks[n].1.clone()))
        } else {
            None
        }
    }

    /// Takes in which of the nodes chosen for the next chunk have it, and hands back the location
    /// to record: with those nodes, at its place in the file. Too few of them end the append.
    pub fn chunk_written(
        &mut self,
        chunk_name: &str,
        targets: &Vec<NodeId>,
        succeeded: Vec<NodeId>,
        rf: usize,
    ) -> (r: Result<ChunkLocation, Response>)
        requires
            old(self).wf(),
            old(self)@.wf(),
            !old(self)@.complete(),
        ensures
            final(self).wf(),
            final(self)@.wf(),
            targets@.len() == 0 ==> r is Err && r->Err_0.refuses(
                "No nodes available for chunk replication"@,
                ErrorCode::IOError,
            ),
            targets@.len() > 0 && succeeded@.len() < immediate(rf) ==> r is Err && r->Err_0.refuses(
                quorum_text(chunk_name@, succeeded@.len() as usize, immediate(rf)),
                ErrorCode::IOError,
            ),
            targets@.len() > 0 && succeeded@.len() >= immediate(rf) ==> r is Ok,
            r is Err ==> final(self)@ == old(self)@,
            r is Ok ==> {
                let chunk = old(self)@.chunks[old(self)@.written.len() as int];
                &&& final(self)@.written.len() == old(self)@.written.len() + 1
                &&& final(self)@.written.last().nodes@ == succeeded@
                &&& final(self)@ == (AppendState {
                    written: old(self)@.written.push(final(self)@.written.last()),
                    ..old(self)@
                })
                &&& (r->Ok_0)@ == (Loc {
                    file_offset: Some(old(self)@.place() as u64),
                    ..written_location(
                        chunk.0,
                        succeeded@,
                        chunk.1@.len() as usize,
                        old(self)@.rec.id,
                    )
                })
            },
    {
        let ghost s0 = self@;
        let n: usize = self.written.len();
        let nodes: Vec<NodeId> = match append_quorum(chunk_name, targets, succeeded, rf) {
            Ok(nodes) => nodes,
            Err(refused) => {
                return Err(refused);
            },
        };
        let chunk_id: ChunkId = self.chunks[n].0;
        let size: usize = self.chunks[n].1.len();
        let file: FileId = self.metadata.id;
        let l: ChunkLocation = new_location(chunk_id, nodes.clone(), size, Some(self.at), file);
        self.written.push(AppendedChunk { chunk_id, size, nodes });
        proof {
            assert(self@.written.drop_last() =~= s0.written);
            assert(writes_follow(self@.chunks, self@.written));
            written_bytes(self@);
            assert(self@.written =~= s0.written.push(self@.written.last()));
        }
        self.at = self.at + size as u64;
        Ok(l)
    }

    /// The file's record once everything is written, and how many bytes its last chunk has room
    /// for.
    pub fn record(self, now_secs: u64) -> (r: (FileMetadata, u64))
        requires
            self@.wf(),
            self@.complete(),
        ensures
            r.0@ == self@.finished(now_secs),
            r.0@.size == self@.rec.size + self@.data.len() - self@.tail_len,
            r.1 == room_in_chunk(r.0@.size, self@.chunk_size as u64),
    {
        proof {
            written_bytes(self@);
        }
        finish_append(
            self.metadata,
            self.took_tail,
            self.tail_len,
            &self.written,
            self.chunk_size as u64,
            now_secs,
        )
    }
}

/// The reply to an append, once the record was stored.
pub fn append_stored(failure: Option<String>, metadata: FileMetadata, remaining_in_chunk: u64) -> (r:
    Response)
    ensures
        match failure {
            Some(why) => r.refuses("Failed to persist metadata: "@ + why@, ErrorCode::InternalError),
            None => r == (Response::AppendFileResult { metadata, remaining_in_chunk }),
        },
{
    match failure {
        Some(why) => failed("Failed to persist metadata: ", why.as_str()),
        None => Response::AppendFileResult { metadata, remaining_in_chunk },
    }
}

/// An append that came to its end: the file is longer by just the new data, the chunks that it did
/// not end in are where they were, and those behind them hold the chunk that it ended in followed
/// by the new data, without a gap up to the file's new end.
pub proof fn an_append_adds_just_the_new_data(
    s: AppendState,
    tail: Seq<u8>,
    new_data: Seq<u8>,
    now_secs: u64,
)
    requires
        s.wf(),
        s.complete(),
        s.data == tail + new_data,
        s.tail_len == tail.len(),
    ensures
        s.finished(now_secs).size == s.rec.size + new_data.len(),
        s.finished(now_secs).chunk_locations.len() == s.kept() + s.chunks.len(),
        forall|k: int|
            0 <= k < s.kept() ==> s.finished(now_secs).chunk_locations[k]
                == #[trigger] s.rec.chunk_locations[k],
        forall|k: int|
            0 <= k < s.chunks.len() ==> (#[trigger] s.added(now_secs, k)).chunk_id == s.chunks[k].0
                && s.added(now_secs, k).file_offset == Some(s.place_of(k)),
        joined_bytes(s.chunks.map_values(|c: (ChunkId, Vec<u8>)| c.1@)) == tail + new_data,
{
    written_bytes(s);
    crate::chunker::chunking_round_trip(s.chunks, s.data, s.chunk_size, 0, s.rec.id);
    added_len(s.written, s.rec.size - s.tail_len, s.rec.id);
    assert(s.data.len() == tail.len() + new_data.len());
    assert forall|k: int| 0 <= k < s.chunks.len() implies (#[trigger] s.added(
        now_secs,
        k,
    )).chunk_id == s.chunks[k].0 && s.added(now_secs, k).file_offset == Some(s.place_of(k)) by {
        chunk_added(s, now_secs, k);
    }
}

proof fn chunk_added(s: AppendState, now_secs: u64, k: int)
    requires
        s.wf(),
        s.complete(),
        0 <= k < s.chunks.len(),
    ensures
        s.added(now_secs, k).chunk_id == s.chunks[k].0,
        s.added(now_secs, k).file_offset == Some(s.place_of(k)),
{
    let base = s.rec.size - s.tail_len;
    added_len(s.written, base, s.rec.id);
    added_chunk(s.written, base, s.rec.id, k);
    assert(s.added(now_secs, k) == appended_locations(s.written, base, s.rec.id)[k]);
    assert(s.written[k].chunk_id == s.chunks[k].0);
    let before = AppendState { written: s.written.take(k), ..s };
    assert forall|j: int| 0 <= j < k implies (#[trigger] before.written[j]).chunk_id
        == before.chunks[j].0 && before.written[j].size == before.chunks[j].1@.len() by {
        assert(s.written[j] == before.written[j]);
    }
    full_before(before);
}

/// The chunks in front of one that is still to come are full.
proof fn full_before(s: AppendState)
    requires
        s.chunk_size > 0,
        is_chunking(s.chunks, s.data, s.chunk_size, 0, s.rec.id),
        writes_follow(s.chunks, s.written),
        s.written.len() < s.chunks.len(),
    ensures
        total_size(s.written) == s.written.len() * s.chunk_size,
{
    let n = s.written.len();
    let pieces = Seq::new(n, |k: int| s.chunks[k].1@);
    sizes_add_up(s.chunks, s.written);
    assert forall|k: int| 0 <= k < pieces.len() implies #[trigger] pieces[k] == piece(
        s.data,
        s.chunk_size,
        k,
    ) by {
        assert(s.chunks[k].1@ == piece(s.data, s.chunk_size, k));
    }
    pieces_make_prefix(pieces, s.data, s.chunk_size);
    assert(s.chunks.len() == piece_count(s.data.len(), s.chunk_size));
    piece_count_steps(s.data.len(), s.chunk_size, n as int);
}

proof fn added_len(chunks: Seq<AppendedChunk>, base: int, file: FileId)
    ensures
        appended_locations(chunks, base, file).len() == chunks.len(),
    decreases chunks.len(),
{
    if chunks.len() > 0 {
        added_len(chunks.drop_last(), base, file);
    }
}

proof fn added_chunk(chunks: Seq<AppendedChunk>, base: int, file: FileId, k: int)
    requires
        0 <= k < chunks.len(),
    ensures
        appended_locations(chunks, base, file)[k].chunk_id == chunks[k].chunk_id,
        appended_locations(chunks, base, file)[k].file_offset == Some(
            (base + total_size(chunks.take(k))) as u64,
        ),
    decreases chunks.len(),
{
    let init = chunks.drop_last();
    added_len(init, base, file);
    if k < init.len() {
        added_chunk(init, base, file, k);
        assert(init.take(k) =~= chunks.take(k));
    } else {
        assert(chunks.take(k) =~= init);
    }
}

} // verus!
