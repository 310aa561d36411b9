//! Writing data to the nodes of the cluster, and reading it back.
use crate::chunker::{bytes_of, is_chunking, joined_bytes, Chunker};
use crate::loops::since;
use crate::metadata::{broadcast_targets, online_peers};
use crate::server::Server;
use crate::text::join;
use crate::types::{ChunkId, ChunkLocation, FileId, NodeId, NodeInfo};
use crate::write_path::{
    first_failure, is_missing, is_online, is_online_exec, needed, other_missing, quorum_nodes,
    read_candidates, MissingChunks, WrittenChunk, MISSING_TTL_MS,
};
use vstd::prelude::*;

verus! {

// ---------------------------------------------------------------------------
// Reading a chunk.
// ---------------------------------------------------------------------------

/// How reading a chunk begins.
#[derive(Debug)]
pub enum ReadStart {
    /// Its bytes are here.
    Done(Vec<u8>),
    /// It is not worth asking for.
    Refused(String),
    /// Look up which nodes have it.
    LookUp,
}

/// Begins to read a chunk: what is here is taken; what nobody could serve a moment ago is not
/// asked for.
pub fn read_begins(
    chunk_id: ChunkId,
    chunk_name: &str,
    here: Option<Vec<u8>>,
    missing: &MissingChunks,
    now_ms: u64,
) -> (r: ReadStart)
    ensures
        match here {
            Some(data) => r == ReadStart::Done(data),
            None => if is_missing(missing@, chunk_id, now_ms) {
                r is Refused && (r->Refused_0)@ == "Chunk "@ + chunk_name@
                    + " is temporarily unavailable (blocklisted)"@
            } else {
                r == ReadStart::LookUp
            },
        },
{
    match here {
        Some(data) => ReadStart::Done(data),
        None => {
            if missing.is_blocked(chunk_id, now_ms) {
                let mut text: String = join("Chunk ", chunk_name);
                text.append(" is temporarily unavailable (blocklisted)");
                ReadStart::Refused(text)
            } else {
                ReadStart::LookUp
            }
        },
    }
}

/// A chunk that is being read from other nodes.
#[derive(Debug)]
pub struct ChunkRead {
    holders: Vec<NodeId>,
    passed: usize,
    asked: usize,
}

/// The nodes that hold the chunk, how many of them were gone through, and how many were asked.
pub ghost struct ReadState {
    pub holders: Seq<NodeId>,
    pub passed: int,
    pub asked: int,
}

impl View for ChunkRead {
    type V = ReadState;

    closed spec fn view(&self) -> ReadState {
        ReadState {
            holders: self.holders@,
            passed: self.passed as int,
            asked: self.asked as int,
        }
    }
}

impl ReadState {
    pub open spec fn wf(self) -> bool {
        0 <= self.asked <= self.passed <= self.holders.len()
    }
}

/// A node is asked for a chunk: it is another one, and online.
pub open spec fn is_asked(node: NodeId, local: NodeId, nodes: Seq<NodeInfo>) -> bool {
    node != local && is_online(nodes, node)
}

/// The place of the first holder from `from` on that is asked; behind the last if there is none.
pub open spec fn next_to_ask(
    holders: Seq<NodeId>,
    from: int,
    local: NodeId,
    nodes: Seq<NodeInfo>,
) -> int
    decreases holders.len() - from,
{
    if from >= holders.len() {
        holders.len() as int
    } else if is_asked(holders[from], local, nodes) {
        from
    } else {
        next_to_ask(holders, from + 1, local, nodes)
    }
}

proof fn next_to_ask_bounds(holders: Seq<NodeId>, from: int, local: NodeId, nodes: Seq<NodeInfo>)
    requires
        from <= holders.len(),
    ensures
        from <= next_to_ask(holders, from, local, nodes) <= holders.len(),
    decreases holders.len() - from,
{
    if from < holders.len() && !is_asked(holders[from], local, nodes) {
        next_to_ask_bounds(holders, from + 1, local, nodes);
    }
}

impl ChunkRead {
    /// Goes on with where the chunk is said to be.
    pub fn located(lookup: Result<Option<ChunkLocation>, String>) -> (r: Result<
        ChunkRead,
        String,
    >)
        ensures
            match lookup {
                Err(_) => r is Err && (r->Err_0)@ == "Failed to get chunk location"@,
                Ok(None) => r is Err && (r->Err_0)@ == "Chunk location not found"@,
                Ok(Some(l)) => r is Ok && (r->Ok_0)@ == (ReadState {
                    holders: l@.nodes,
                    passed: 0,
                    asked: 0,
                }),
            },
    {
        match lookup {
            Err(_) => Err("Failed to get chunk location".to_owned()),
            Ok(None) => Err("Chunk location not found".to_owned()),
            Ok(Some(l)) => Ok(ChunkRead { holders: l.nodes, passed: 0, asked: 0 }),
        }
    }

    /// The next holder to ask, as the cluster is known now.
    pub fn next_holder(&mut self, local: NodeId, nodes: &Vec<NodeInfo>) -> (r: Option<NodeId>)
        requires
            old(self)@.wf(),
        ensures
            final(self)@.wf(),
            ({
                let holders = old(self)@.holders;
                let k = next_to_ask(holders, old(self)@.passed, local, nodes@);
                if k < holders.len() {
                    r == Some(holders[k]) && final(self)@ == (ReadState {
                        holders: holders,
                        passed: k + 1,
                        asked: old(self)@.asked + 1,
                    })
                } else {
                    r is None && final(self)@ == (ReadState {
                        passed: holders.len() as int,
                        ..old(self)@
                    })
                }
            }),
    {
        let ghost holders = self.holders@;
        let ghost start = self.passed as int;
        while self.passed < self.holders.len()
            invariant
                self.holders@ == holders,
                holders == old(self)@.holders,
                old(self)@.wf(),
                self.asked == old(self)@.asked,
                start == old(self)@.passed,
                start <= self.passed <= holders.len(),
                next_to_ask(holders, start, local, nodes@) == next_to_ask(
                    holders,
                    self.passed as int,
                    local,
                    nodes@,
                ),
            decreases holders.len() - self.passed,
        {
            let node: NodeId = self.holders[self.passed];
            self.passed = self.passed + 1;
            if node != local && is_online_exec(nodes, node) {
                self.asked = self.asked + 1;
                return Some(node);
            }
        }
        None
    }

    /// Gives up on the chunk. If there were nodes to ask, none of which had it, it is not worth
    /// asking for again for a while.
    pub fn give_up(
        self,
        chunk_id: ChunkId,
        chunk_name: &str,
        missing: &mut MissingChunks,
        now_ms: u64,
    ) -> (r: String)
        requires
            self@.wf(),
        ensures
            r@ == "Failed to read chunk "@ + chunk_name@ + " from any node"@,
            final(missing)@ == (if self@.asked > 0 {
                other_missing(old(missing)@, chunk_id, now_ms).push((chunk_id, now_ms))
            } else {
                old(missing)@
            }),
            final(missing)@ == crate::write_path::missing_after(
                old(missing)@,
                chunk_id,
                self@.asked as nat,
                self@.asked as nat,
                now_ms,
            ),
    {
        missing.note_unavailable(chunk_id, self.asked, self.asked, now_ms);
        let mut text: String = join("Failed to read chunk ", chunk_name);
        text.append(" from any node");
        text
    }
}

/// The nodes that are asked one after the other from a place on, if none of them has the chunk
/// and the cluster stays as it is.
pub open spec fn asked_from(
    holders: Seq<NodeId>,
    from: int,
    local: NodeId,
    nodes: Seq<NodeInfo>,
) -> Seq<NodeId>
    decreases holders.len() - from,
{
    let k = next_to_ask(holders, from, local, nodes);
    if from < 0 || k < from || k >= holders.len() {
        Seq::empty()
    } else {
        seq![holders[k]] + asked_from(holders, k + 1, local, nodes)
    }
}

proof fn asked_from_steps(holders: Seq<NodeId>, from: int, local: NodeId, nodes: Seq<NodeInfo>)
    requires
        0 <= from < holders.len(),
    ensures
        asked_from(holders, from, local, nodes) == (if is_asked(holders[from], local, nodes) {
            seq![holders[from]] + asked_from(holders, from + 1, local, nodes)
        } else {
            asked_from(holders, from + 1, local, nodes)
        }),
{
    next_to_ask_bounds(holders, from, local, nodes);
    next_to_ask_bounds(holders, from + 1, local, nodes);
}

proof fn candidates_then_asked(
    holders: Seq<NodeId>,
    from: int,
    local: NodeId,
    nodes: Seq<NodeInfo>,
)
    requires
        0 <= from <= holders.len(),
    ensures
        read_candidates(holders.take(from), local, nodes) + asked_from(holders, from, local, nodes)
            == read_candidates(holders, local, nodes),
    decreases holders.len() - from,
{
    if from == holders.len() {
        assert(holders.take(from) =~= holders);
        assert(asked_from(holders, from, local, nodes) =~= Seq::<NodeId>::empty());
    } else {
        candidates_then_asked(holders, from + 1, local, nodes);
        asked_from_steps(holders, from, local, nodes);
        assert(holders.take(from + 1).drop_last() =~= holders.take(from));
        assert(holders.take(from + 1).last() == holders[from]);
        assert(read_candidates(holders.take(from), local, nodes) + asked_from(
            holders,
            from,
            local,
            nodes,
        ) =~= read_candidates(holders.take(from + 1), local, nodes) + asked_from(
            holders,
            from + 1,
            local,
            nodes,
        ));
    }
}

/// A read is given up only after every other node that holds the chunk and is online was asked,
/// each in its turn.
pub proof fn every_online_holder_is_asked(
    holders: Seq<NodeId>,
    local: NodeId,
    nodes: Seq<NodeInfo>,
)
    ensures
        asked_from(holders, 0, local, nodes) == read_candidates(holders, local, nodes),
{
    candidates_then_asked(holders, 0, local, nodes);
    assert(holders.take(0) =~= Seq::<NodeId>::empty());
    assert(read_candidates(holders.take(0), local, nodes) + asked_from(holders, 0, local, nodes)
        =~= asked_from(holders, 0, local, nodes));
}

proof fn others_are_not_this(entries: Seq<(ChunkId, u64)>, chunk: ChunkId, now_ms: u64)
    ensures
        forall|i: int|
            0 <= i < other_missing(entries, chunk, now_ms).len() ==> (#[trigger] other_missing(
                entries,
                chunk,
                now_ms,
            )[i]).0 != chunk,
    decreases entries.len(),
{
    if entries.len() > 0 {
        others_are_not_this(entries.drop_last(), chunk, now_ms);
        let sofar = other_missing(entries.drop_last(), chunk, now_ms);
        let all = other_missing(entries, chunk, now_ms);
        assert forall|i: int| 0 <= i < all.len() implies (#[trigger] all[i]).0 != chunk by {
            if i < sofar.len() {
                assert(all[i] == sofar[i]);
            }
        }
    }
}

/// A chunk that nobody had is left alone for just as long as it should be, and is asked for again
/// afterwards.
pub proof fn a_missing_chunk_is_left_alone_for_a_while(
    entries: Seq<(ChunkId, u64)>,
    chunk: ChunkId,
    found_ms: u64,
    now_ms: u64,
)
    ensures
        is_missing(other_missing(entries, chunk, found_ms).push((chunk, found_ms)), chunk, now_ms)
            <==> since(found_ms, now_ms) < MISSING_TTL_MS,
{
    let rest = other_missing(entries, chunk, found_ms);
    let all = rest.push((chunk, found_ms));
    others_are_not_this(entries, chunk, found_ms);
    assert(all[rest.len() as int] == (chunk, found_ms));
    assert forall|i: int| 0 <= i < rest.len() implies (#[trigger] all[i]).0 != chunk by {
        assert(all[i] == rest[i]);
    }
}

// ---------------------------------------------------------------------------
// Writing a chunk.
// ---------------------------------------------------------------------------

/// Begins to write a chunk: the copies that the write waits for, and those that it leaves to the
/// background.
pub fn write_begins(chunk_name: &str, targets: &Vec<NodeId>, rf: usize) -> (r: Result<
    (Vec<NodeId>, Vec<NodeId>),
    String,
>)
    ensures
        targets@.len() == 0 ==> r is Err && (r->Err_0)@ == "No nodes available for chunk "@
            + chunk_name@,
        targets@.len() > 0 ==> r is Ok && (r->Ok_0).0@ == targets@.take(
            needed(rf, targets@.len()) as int,
        ) && (r->Ok_0).1@ == targets@.skip(needed(rf, targets@.len()) as int),
        r is Ok ==> (r->Ok_0).0@ == crate::write_path::waited_for(targets@, rf) && (r->Ok_0).1@
            == crate::write_path::left_behind(targets@, rf),
{
    if targets.len() == 0 {
        return Err(join("No nodes available for chunk ", chunk_name));
    }
    Ok(quorum_nodes(targets, rf))
}

/// How many of the copies were made.
pub open spec fn made(copies: Seq<bool>) -> nat
    decreases copies.len(),
{
    if copies.len() == 0 {
        0
    } else {
        made(copies.drop_last()) + (if copies.last() {
            1nat
        } else {
            0nat
        })
    }
}

pub fn count_made(copies: &Vec<bool>) -> (n: usize)
    ensures
        n == made(copies@),
        n <= copies@.len(),
{
    let mut n: usize = 0;
    let mut i: usize = 0;
    assert(copies@.take(0) =~= Seq::<bool>::empty());
    while i < copies.len()
        invariant
            n <= i <= copies@.len(),
            n == made(copies@.take(i as int)),
        decreases copies@.len() - i,
    {
        proof {
            assert(copies@.take(i + 1).drop_last() =~= copies@.take(i as int));
            assert(copies@.take(i + 1).last() == copies@[i as int]);
        }
        if copies[i] {
            n += 1;
        }
        i += 1;
    }
    assert(copies@.take(i as int) =~= copies@);
    n
}

proof fn made_at_most(copies: Seq<bool>)
    ensures
        made(copies) <= copies.len(),
        made(copies) == copies.len() ==> forall|i: int|
            0 <= i < copies.len() ==> #[trigger] copies[i],
    decreases copies.len(),
{
    if copies.len() > 0 {
        let init = copies.drop_last();
        made_at_most(init);
        if made(copies) == copies.len() {
            assert forall|i: int| 0 <= i < copies.len() implies #[trigger] copies[i] by {
                if i < init.len() {
                    assert(init[i]);
                }
            }
        }
    }
}

/// A chunk that counts as written is on every node that the write waited for, and at least on
/// one.
pub proof fn a_written_chunk_is_on_every_node_waited_for(
    targets: Seq<NodeId>,
    rf: usize,
    copies: Seq<bool>,
)
    requires
        targets.len() > 0,
        targets.len() <= usize::MAX,
        rf > 0,
        copies.len() == targets.take(needed(rf, targets.len()) as int).len(),
        made(copies) >= needed(rf, targets.len()),
    ensures
        copies.len() > 0,
        forall|i: int| 0 <= i < copies.len() ==> #[trigger] copies[i],
{
    made_at_most(copies);
}

/// What follows once the location of a written chunk was stored: the nodes that are told of it.
pub fn location_stored(failure: Option<String>, nodes: &Vec<NodeInfo>, local: NodeId) -> (r: Result<
    Vec<NodeId>,
    String,
>)
    ensures
        match failure {
            Some(_) => r is Err && (r->Err_0)@ == "Failed to store chunk location"@,
            None => r is Ok && (r->Ok_0)@ == online_peers(nodes@, local),
        },
{
    match failure {
        Some(_) => Err("Failed to store chunk location".to_owned()),
        None => Ok(broadcast_targets(nodes, local)),
    }
}

/// What came of keeping a chunk on this node alone. Its location is not told around: the client
/// knows all the nodes that it wrote to, and tells them itself.
pub fn kept_here(
    chunk_id: ChunkId,
    chunk_name: &str,
    size: u64,
    local: NodeId,
    write_failure: Option<String>,
    store_failure: Option<String>,
) -> (r: Result<WrittenChunk, String>)
    ensures
        write_failure is Some ==> r is Err && (r->Err_0)@ == "Failed to write chunk "@ + chunk_name@
            + " locally"@,
        write_failure is None && store_failure is Some ==> r is Err && (r->Err_0)@
            == "Failed to store chunk location"@,
        write_failure is None && store_failure is None ==> r is Ok && (r->Ok_0).chunk_id == chunk_id
            && (r->Ok_0).size == size && (r->Ok_0).nodes@ == seq![local],
{
    if write_failure.is_some() {
        let mut text: String = join("Failed to write chunk ", chunk_name);
        text.append(" locally");
        return Err(text);
    }
    if store_failure.is_some() {
        return Err("Failed to store chunk location".to_owned());
    }
    let nodes: Vec<NodeId> = vec![local];
    assert(nodes@ =~= seq![local]);
    Ok(WrittenChunk { chunk_id, size, nodes })
}

// ---------------------------------------------------------------------------
// Whole writes and reads.
// ---------------------------------------------------------------------------

/// What was written, if nothing failed.
pub open spec fn all_written(results: Seq<Result<WrittenChunk, String>>) -> Seq<WrittenChunk> {
    results.map_values(|r: Result<WrittenChunk, String>| r->Ok_0)
}

/// The outcome of a write whose chunks fared like this: what was written, or the first failure.
pub open spec fn is_outcome(
    results: Seq<Result<WrittenChunk, String>>,
    r: Result<Vec<WrittenChunk>, String>,
) -> bool {
    match first_failure(results) {
        Some(i) => r is Err && r->Err_0 == results[i]->Err_0,
        None => r is Ok && (r->Ok_0)@ == all_written(results),
    }
}

fn gather(results: Vec<Result<WrittenChunk, String>>) -> (r: Result<Vec<WrittenChunk>, String>)
    ensures
        is_outcome(results@, r),
{
    let ghost all = results@;
    let mut rest: Vec<Result<WrittenChunk, String>> = results;
    let mut out: Vec<WrittenChunk> = Vec::new();
    let mut first: Option<String> = None;
    let n: usize = rest.len();
    let mut i: usize = 0;
    assert(all.take(0) =~= Seq::<Result<WrittenChunk, String>>::empty());
    while i < n
        invariant
            i <= n,
            n == all.len(),
            rest@ == all.skip(i as int),
            match first_failure(all.take(i as int)) {
                Some(k) => first is Some && first->0 == all[k]->Err_0 && 0 <= k < i,
                None => first is None && out@ == all_written(all.take(i as int)),
            },
        decreases n - i,
    {
        proof {
            assert(all.take(i + 1).drop_last() =~= all.take(i as int));
            assert(all.take(i + 1).last() == all[i as int]);
            assert(rest@[0] == all[i as int]);
        }
        let ghost before = out@;
        let result: Result<WrittenChunk, String> = rest.remove(0);
        assert(rest@ =~= all.skip(i + 1));
        match result {
            Ok(w) => {
                if first.is_none() {
                    out.push(w);
                    assert(out@ =~= all_written(all.take(i + 1)));
                }
            },
            Err(why) => {
                if first.is_none() {
                    first = Some(why);
                }
            },
        }
        i += 1;
    }
    assert(all.take(i as int) =~= all);
    match first {
        Some(why) => Err(why),
        None => Ok(out),
    }
}

/// The chunks were read one after the other, as far as `pieces` reaches.
pub open spec fn read_so_far<R: Fn(ChunkId) -> Result<Vec<u8>, String>>(
    read_chunk: R,
    chunk_ids: Seq<ChunkId>,
    pieces: Seq<Vec<u8>>,
) -> bool {
    &&& pieces.len() <= chunk_ids.len()
    &&& forall|k: int|
        0 <= k < pieces.len() ==> call_ensures(
            read_chunk,
            (chunk_ids[k],),
            Result::<Vec<u8>, String>::Ok(#[trigger] pieces[k]),
        )
}

impl Server {
    /// Writes data that starts at the beginning of a file, and hands back what was written where.
    /// All its chunks are handed to `write_chunks`, which says how each of them fared.
    pub fn write_data<W: Fn(&Vec<(ChunkId, Vec<u8>)>) -> Vec<Result<WrittenChunk, String>>>(
        &self,
        chunker: &Chunker,
        data: &Vec<u8>,
        file_id: FileId,
        write_chunks: W,
    ) -> (r: Result<Vec<WrittenChunk>, String>)
        requires
            chunker.size() > 0,
            data@.len() <= u64::MAX,
            forall|chunks: &Vec<(ChunkId, Vec<u8>)>| call_requires(write_chunks, (chunks,)),
        ensures
            exists|chunks: Vec<(ChunkId, Vec<u8>)>, results: Vec<Result<WrittenChunk, String>>|
                is_chunking(chunks@, data@, chunker.size(), 0, file_id)
                    && #[trigger] call_ensures(write_chunks, (&chunks,), results) && is_outcome(
                    results@,
                    r,
                ),
    {
        let chunks: Vec<(ChunkId, Vec<u8>)> = chunker.chunk_data(data, file_id);
        let results: Vec<Result<WrittenChunk, String>> = write_chunks(&chunks);
        gather(results)
    }

    /// Writes data that starts at the beginning of a file to this node alone. Keeping the chunks,
    /// and recording where they are, is up to `keep_chunks`.
    pub fn write_data_local_only<
        W: Fn(&Vec<(ChunkId, Vec<u8>)>) -> Vec<Result<WrittenChunk, String>>,
    >(&self, chunker: &Chunker, data: &Vec<u8>, file_id: FileId, keep_chunks: W) -> (r: Result<
        Vec<WrittenChunk>,
        String,
    >)
        requires
            chunker.size() > 0,
            data@.len() <= u64::MAX,
            forall|chunks: &Vec<(ChunkId, Vec<u8>)>| call_requires(keep_chunks, (chunks,)),
        ensures
            exists|chunks: Vec<(ChunkId, Vec<u8>)>, results: Vec<Result<WrittenChunk, String>>|
                is_chunking(chunks@, data@, chunker.size(), 0, file_id)
                    && #[trigger] call_ensures(keep_chunks, (&chunks,), results) && is_outcome(
                    results@,
                    r,
                ),
    {
        self.write_data_local_only_at(chunker, data, 0, file_id, keep_chunks)
    }

    /// Writes data that starts at an offset of a file to this node alone.
    pub fn write_data_local_only_at<
        W: Fn(&Vec<(ChunkId, Vec<u8>)>) -> Vec<Result<WrittenChunk, String>>,
    >(
        &self,
        chunker: &Chunker,
        data: &Vec<u8>,
        file_offset: u64,
        file_id: FileId,
        keep_chunks: W,
    ) -> (r: Result<Vec<WrittenChunk>, String>)
        requires
            chunker.size() > 0,
            file_offset + data@.len() <= u64::MAX,
            forall|chunks: &Vec<(ChunkId, Vec<u8>)>| call_requires(keep_chunks, (chunks,)),
        ensures
            exists|chunks: Vec<(ChunkId, Vec<u8>)>, results: Vec<Result<WrittenChunk, String>>|
                is_chunking(chunks@, data@, chunker.size(), file_offset, file_id)
                    && #[trigger] call_ensures(keep_chunks, (&chunks,), results) && is_outcome(
                    results@,
                    r,
                ),
    {
        let chunks: Vec<(ChunkId, Vec<u8>)> = chunker.chunk_data_at(data, file_offset, file_id);
        let results: Vec<Result<WrittenChunk, String>> = keep_chunks(&chunks);
        gather(results)
    }

    /// Reads chunks and puts them together. The first one that cannot be read ends it.
    pub fn read_data<R: Fn(ChunkId) -> Result<Vec<u8>, String>>(
        &self,
        chunker: &Chunker,
        chunk_ids: &Vec<ChunkId>,
        read_chunk: R,
    ) -> (r: Result<Vec<u8>, String>)
        requires
            forall|c: ChunkId| call_requires(read_chunk, (c,)),
        ensures
            match r {
                Ok(data) => exists|pieces: Seq<Vec<u8>>| #[trigger]
                    read_so_far(read_chunk, chunk_ids@, pieces) && pieces.len() == chunk_ids@.len()
                        && data@ == joined_bytes(bytes_of(pieces)),
                Err(why) => exists|pieces: Seq<Vec<u8>>| #[trigger]
                    read_so_far(read_chunk, chunk_ids@, pieces) && pieces.len() < chunk_ids@.len()
                        && call_ensures(
                        read_chunk,
                        (chunk_ids@[pieces.len() as int],),
                        Result::<Vec<u8>, String>::Err(why),
                    ),
            },
    {
        let mut pieces: Vec<Vec<u8>> = Vec::new();
        let mut i: usize = 0;
        while i < chunk_ids.len()
            invariant
                i <= chunk_ids@.len(),
                pieces@.len() == i,
                read_so_far(read_chunk, chunk_ids@, pieces@),
                forall|c: ChunkId| call_requires(read_chunk, (c,)),
            decreases chunk_ids@.len() - i,
        {
            match read_chunk(chunk_ids[i]) {
                Ok(data) => {
                    pieces.push(data);
                },
                Err(why) => {
                    return Err(why);
                },
            }
            i += 1;
        }
        assert(read_so_far(read_chunk, chunk_ids@, pieces@));
        Ok(chunker.reassemble_chunks(pieces))
    }
}

/// What was written is read back: if each chunk is read as it was written, the pieces make up the
/// data again.
pub proof fn written_data_is_read_back(
    chunks: Seq<(ChunkId, Vec<u8>)>,
    data: Seq<u8>,
    size: nat,
    offset: u64,
    file: FileId,
    pieces: Seq<Vec<u8>>,
)
    requires
        size > 0,
        is_chunking(chunks, data, size, offset, file),
        pieces.len() == chunks.len(),
        forall|k: int| 0 <= k < pieces.len() ==> (#[trigger] pieces[k])@ == chunks[k].1@,
    ensures
        joined_bytes(bytes_of(pieces)) == data,
{
    crate::chunker::chunking_round_trip(chunks, data, size, offset, file);
    assert(bytes_of(pieces) =~= chunks.map_values(|c: (ChunkId, Vec<u8>)| c.1@));
}

} // verus!
