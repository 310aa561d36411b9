//! Identities and records that the storage node works on.
use vstd::prelude::*;

verus! {

/// Bytes covered by one chunk slot of a file.
pub const CHUNK_SIZE: u64 = 4194304;

/// Content address of a chunk: a 32-byte digest.
#[derive(Clone, Copy, Debug, Eq, Hash)]
pub struct ChunkId {
    pub hash: [u8; 32],
}

/// A file's identity: the 128 bits of its UUID.
#[derive(Clone, Copy, Debug, PartialEq, Eq, Structural, Hash)]
pub struct FileId {
    pub id: u128,
}

/// A node's identity: the 128 bits of its UUID. Nodes are ordered by it.
#[derive(Clone, Copy, Debug, PartialEq, Eq, Structural, Hash)]
pub struct NodeId {
    pub id: u128,
}

impl ChunkId {
    /// The order in which chunk identities are listed: by the first byte in which they differ.
    #[verifier::opaque]
    pub open spec fn lt(self, other: ChunkId) -> bool {
        exists|k: int|
            #![trigger self.hash@[k]]
            0 <= k < 32 && self.hash@[k] < other.hash@[k] && (forall|j: int|
                0 <= j < k ==> self.hash@[j] == other.hash@[j])
    }

    pub fn from_hash(hash: [u8; 32]) -> (id: ChunkId)
        ensures
            id.hash == hash,
    {
        ChunkId { hash }
    }

    fn same(&self, other: &ChunkId) -> (r: bool)
        ensures
            r == (*self == *other),
    {
        let mut i: usize = 0;
        while i < 32
            invariant
                i <= 32,
                forall|j: int| 0 <= j < i ==> self.hash@[j] == other.hash@[j],
            decreases 32 - i,
        {
            if self.hash[i] != other.hash[i] {
                assert(self.hash@ != other.hash@);
                return false;
            }
            i += 1;
        }
        assert(self.hash =~= other.hash);
        true
    }

    /// Whether this identity comes strictly before `other` in listing order.
    pub fn precedes(&self, other: &ChunkId) -> (r: bool)
        ensures
            r == self.lt(*other),
    {
        reveal(ChunkId::lt);
        let mut i: usize = 0;
        #[verifier::loop_isolation(false)]
        while i < 32
            invariant
                i <= 32,
                forall|j: int| 0 <= j < i ==> self.hash@[j] == other.hash@[j],
            decreases 32 - i,
        {
            if self.hash[i] < other.hash[i] {
                assert(self.hash@[i as int] < other.hash@[i as int]);
                return true;
            }
            if self.hash[i] > other.hash[i] {
                assert forall|k: int|
                    #![trigger self.hash@[k]]
                    0 <= k < 32 && self.hash@[k] < other.hash@[k] implies exists|j: int|
                    0 <= j < k && self.hash@[j] != other.hash@[j] by {
                    assert(self.hash@[i as int] != other.hash@[i as int]);
                }
                return false;
            }
            i += 1;
        }
        false
    }
}

/// The listing order is total: two different identities compare one way or the other.
pub proof fn chunk_order_total(a: ChunkId, b: ChunkId)
    ensures
        a == b || a.lt(b) || b.lt(a),
{
    reveal(ChunkId::lt);
    if a != b {
        if a.hash@ =~= b.hash@ {
            assert(a.hash =~= b.hash);
        }
        let k = first_difference(a.hash@, b.hash@, 0);
        assert(a.hash@[k] != b.hash@[k]);
        if a.hash@[k] < b.hash@[k] {
            assert(a.lt(b));
        } else {
            assert(b.hash@[k] < a.hash@[k]);
            assert(b.lt(a));
        }
    }
}

proof fn first_difference(a: Seq<u8>, b: Seq<u8>, from: int) -> (k: int)
    requires
        a.len() == b.len(),
        0 <= from <= a.len(),
        a != b,
        forall|j: int| 0 <= j < from ==> a[j] == b[j],
    ensures
        from <= k < a.len(),
        a[k] != b[k],
        forall|j: int| 0 <= j < k ==> a[j] == b[j],
    decreases a.len() - from,
{
    if from == a.len() {
        assert(a =~= b);
        from
    } else if a[from] != b[from] {
        from
    } else {
        first_difference(a, b, from + 1)
    }
}

/// The listing order is transitive.
pub proof fn chunk_order_transitive(a: ChunkId, b: ChunkId, c: ChunkId)
    requires
        a.lt(b),
        b.lt(c),
    ensures
        a.lt(c),
{
    reveal(ChunkId::lt);
    let k = choose|k: int|
        #![trigger a.hash@[k]]
        0 <= k < 32 && a.hash@[k] < b.hash@[k] && (forall|j: int|
            0 <= j < k ==> a.hash@[j] == b.hash@[j]);
    let m = choose|m: int|
        #![trigger b.hash@[m]]
        0 <= m < 32 && b.hash@[m] < c.hash@[m] && (forall|j: int|
            0 <= j < m ==> b.hash@[j] == c.hash@[j]);
    let n = if k < m { k } else { m };
    assert(a.hash@[n] < c.hash@[n]);
}

/// No identity comes before itself, nor two before each other.
pub proof fn chunk_order_irreflexive(a: ChunkId, b: ChunkId)
    ensures
        !a.lt(a),
        a.lt(b) ==> !b.lt(a),
{
    reveal(ChunkId::lt);
    if a.lt(b) && b.lt(a) {
        chunk_order_transitive(a, b, a);
    }
}

impl PartialEq for ChunkId {
    fn eq(&self, other: &ChunkId) -> (r: bool) {
        self.same(other)
    }
}

impl vstd::std_specs::cmp::PartialEqSpecImpl for ChunkId {
    open spec fn obeys_eq_spec() -> bool {
        true
    }

    open spec fn eq_spec(&self, other: &ChunkId) -> bool {
        *self == *other
    }
}

/// Where one chunk of a file lives, and which write put it there.
#[derive(Debug)]
pub struct ChunkLocation {
    pub chunk_id: ChunkId,
    pub nodes: Vec<NodeId>,
    pub size: usize,
    pub checksum: [u8; 32],
    pub file_offset: Option<u64>,
    pub written_at: Option<u64>,
    pub client_write_seq: Option<u64>,
    pub file_id: Option<FileId>,
}

/// What a `ChunkLocation` says.
pub ghost struct Loc {
    pub chunk_id: ChunkId,
    pub nodes: Seq<NodeId>,
    pub size: usize,
    pub checksum: [u8; 32],
    pub file_offset: Option<u64>,
    pub written_at: Option<u64>,
    pub client_write_seq: Option<u64>,
    pub file_id: Option<FileId>,
}

impl View for ChunkLocation {
    type V = Loc;

    open spec fn view(&self) -> Loc {
        Loc {
            chunk_id: self.chunk_id,
            nodes: self.nodes@,
            size: self.size,
            checksum: self.checksum,
            file_offset: self.file_offset,
            written_at: self.written_at,
            client_write_seq: self.client_write_seq,
            file_id: self.file_id,
        }
    }
}

impl Clone for ChunkLocation {
    fn clone(&self) -> (r: ChunkLocation)
        ensures
            r@ == self@,
    {
        ChunkLocation {
            chunk_id: self.chunk_id,
            nodes: self.nodes.clone(),
            size: self.size,
            checksum: self.checksum,
            file_offset: self.file_offset,
            written_at: self.written_at,
            client_write_seq: self.client_write_seq,
            file_id: self.file_id,
        }
    }
}

/// The chunk slot that a byte offset falls in.
pub open spec fn slot_of(offset: u64) -> u64 {
    (offset / CHUNK_SIZE) as u64
}

impl Loc {
    /// The slot this location fills, when its place in the file is known.
    pub open spec fn slot(self) -> Option<u64> {
        match self.file_offset {
            Some(o) => Some(slot_of(o)),
            None => None,
        }
    }

    /// Position key: locations without a place come last.
    pub open spec fn order_key(self) -> u64 {
        match self.file_offset {
            Some(o) => o,
            None => u64::MAX,
        }
    }

    /// Slot key: locations without a place come last.
    pub open spec fn slot_key(self) -> u64 {
        match self.file_offset {
            Some(o) => slot_of(o),
            None => u64::MAX,
        }
    }
}

/// What a list of locations says.
pub open spec fn locs(s: Seq<ChunkLocation>) -> Seq<Loc> {
    s.map_values(|l: ChunkLocation| l@)
}

impl ChunkLocation {
    pub fn slot(&self) -> (r: Option<u64>)
        ensures
            r == self@.slot(),
    {
        match self.file_offset {
            Some(o) => Some(o / CHUNK_SIZE),
            None => None,
        }
    }

    pub fn order_key(&self) -> (r: u64)
        ensures
            r == self@.order_key(),
    {
        match self.file_offset {
            Some(o) => o,
            None => u64::MAX,
        }
    }

    pub fn slot_key(&self) -> (r: u64)
        ensures
            r == self@.slot_key(),
    {
        match self.file_offset {
            Some(o) => o / CHUNK_SIZE,
            None => u64::MAX,
        }
    }
}

/// A copy of a list of locations.
pub fn clone_locs(v: &Vec<ChunkLocation>) -> (r: Vec<ChunkLocation>)
    ensures
        locs(r@) == locs(v@),
        r@.len() == v@.len(),
{
    let mut out: Vec<ChunkLocation> = Vec::new();
    let mut i: usize = 0;
    while i < v.len()
        invariant
            i <= v@.len(),
            out@.len() == i,
            locs(out@) =~= locs(v@).take(i as int),
        decreases v@.len() - i,
    {
        out.push(v[i].clone());
        i += 1;
    }
    assert(locs(v@).take(i as int) =~= locs(v@));
    out
}

#[derive(Clone, Copy, Debug, PartialEq, Eq, Structural)]
pub enum FileType {
    RegularFile,
    Directory,
    Symlink,
}

/// A file's record.
#[derive(Debug)]
pub struct FileMetadata {
    pub id: FileId,
    pub path: String,
    pub size: u64,
    pub mode: u32,
    pub uid: u32,
    pub gid: u32,
    pub file_type: FileType,
    pub created_at: u64,
    pub modified_at: u64,
    pub write_seq: u64,
    pub chunk_locations: Vec<ChunkLocation>,
    pub symlink_target: Option<String>,
}

/// What a `FileMetadata` says.
pub ghost struct FileRec {
    pub id: FileId,
    pub path: Seq<char>,
    pub size: u64,
    pub mode: u32,
    pub uid: u32,
    pub gid: u32,
    pub file_type: FileType,
    pub created_at: u64,
    pub modified_at: u64,
    pub write_seq: u64,
    pub chunk_locations: Seq<Loc>,
    pub symlink_target: Option<Seq<char>>,
}

impl View for FileMetadata {
    type V = FileRec;

    open spec fn view(&self) -> FileRec {
        FileRec {
            id: self.id,
            path: self.path@,
            size: self.size,
            mode: self.mode,
            uid: self.uid,
            gid: self.gid,
            file_type: self.file_type,
            created_at: self.created_at,
            modified_at: self.modified_at,
            write_seq: self.write_seq,
            chunk_locations: locs(self.chunk_locations@),
            symlink_target: match self.symlink_target {
                Some(t) => Some(t@),
                None => None,
            },
        }
    }
}

impl Clone for FileMetadata {
    fn clone(&self) -> (r: FileMetadata)
        ensures
            r@ == self@,
    {
        FileMetadata {
            id: self.id,
            path: self.path.clone(),
            size: self.size,
            mode: self.mode,
            uid: self.uid,
            gid: self.gid,
            file_type: self.file_type,
            created_at: self.created_at,
            modified_at: self.modified_at,
            write_seq: self.write_seq,
            chunk_locations: clone_locs(&self.chunk_locations),
            symlink_target: match &self.symlink_target {
                Some(t) => Some(t.clone()),
                None => None,
            },
        }
    }
}

/// What a list of file records says.
pub open spec fn recs(s: Seq<FileMetadata>) -> Seq<FileRec> {
    s.map_values(|m: FileMetadata| m@)
}

/// Why a request was refused.
#[derive(Clone, Copy, Debug, PartialEq, Eq, Structural)]
pub enum ErrorCode {
    ChecksumMismatch,
    IOError,
    InternalError,
    InvalidRequest,
    NotFound,
    OffsetMismatch,
}

#[derive(Clone, Copy, Debug, PartialEq, Eq, Structural)]
pub enum NodeStatus {
    Online,
    Suspected,
    Offline,
}

/// A cluster member as this node sees it.
#[derive(Clone, Copy, Debug, PartialEq, Eq, Structural)]
pub struct NodeInfo {
    pub id: NodeId,
    pub status: NodeStatus,
    pub available_bytes: u64,
    pub total_bytes: u64,
}

} // verus!
