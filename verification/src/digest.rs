//! Content digests: chunk identities and patch tokens.
use crate::types::{ChunkId, FileId};
use vstd::bytes::{
    lemma_auto_spec_u128_to_from_le_bytes, lemma_auto_spec_u64_to_from_le_bytes,
    spec_u128_to_le_bytes, spec_u64_to_le_bytes,
    u128_to_le_bytes, u64_to_le_bytes,
};
use vstd::prelude::*;

verus! {

/// The BLAKE3 digest of a byte string.
pub uninterp spec fn blake3_digest(input: Seq<u8>) -> [u8; 32];

/// `blake3::Hasher`: `new`, one `update` for each part, `finalize`. The result is the BLAKE3
/// digest of the parts put behind one another.
#[verifier::external_body]
fn blake3_of_parts(first: &[u8], second: &[u8], third: &[u8]) -> (digest: [u8; 32])
    ensures
        digest == blake3_digest(first@ + second@ + third@),
{
    let mut hasher = blake3::Hasher::new();
    hasher.update(first);
    hasher.update(second);
    hasher.update(third);
    *hasher.finalize().as_bytes()
}

/// The sixteen bytes of a file's UUID, most significant first.
pub open spec fn file_id_bytes(file: FileId) -> Seq<u8> {
    spec_u128_to_le_bytes(file.id).reverse()
}

/// What the digest of a chunk's content is over: the file's identity, the offset and the data.
pub open spec fn content_input(data: Seq<u8>, offset: u64, file: FileId) -> Seq<u8> {
    file_id_bytes(file) + spec_u64_to_le_bytes(offset) + data
}

/// The digest that names a chunk's content at a place of a file.
pub open spec fn content_digest_at(data: Seq<u8>, offset: u64, file: FileId) -> [u8; 32] {
    blake3_digest(content_input(data, offset, file))
}

/// The identity of content at a place of a file.
pub open spec fn content_id_at(data: Seq<u8>, offset: u64, file: FileId) -> ChunkId {
    ChunkId { hash: content_digest_at(data, offset, file) }
}

/// The word that sets patch tokens apart from content digests.
pub open spec fn token_domain() -> Seq<u8> {
    seq![
        100u8, 102u8, 115u8, 45u8, 112u8, 97u8, 116u8, 99u8, 104u8, 45u8, 116u8, 111u8, 107u8,
        101u8, 110u8,
    ]
}

/// What the digest of a patch token is over.
pub open spec fn token_input(delta: ChunkId) -> Seq<u8> {
    token_domain() + delta.hash@
}

/// The public token that stands for a pending patch, made from its delta's identity.
pub open spec fn patch_token(delta: ChunkId) -> ChunkId {
    ChunkId { hash: blake3_digest(token_input(delta)) }
}

/// How much content makes the input of a chunk's digest as long as that of a token's.
pub const TOKEN_LIKE_LEN: usize = 23;

/// A token is the identity of a chunk only if two different inputs have one digest. The chunk
/// must not be of the one length at which the inputs are equally long, and could be the same.
pub proof fn a_token_is_a_chunk_only_if_digests_agree(
    delta: ChunkId,
    data: Seq<u8>,
    offset: u64,
    file: FileId,
)
    requires
        data.len() != TOKEN_LIKE_LEN,
    ensures
        token_input(delta) != content_input(data, offset, file),
        patch_token(delta) == content_id_at(data, offset, file) ==> blake3_digest(
            token_input(delta),
        ) == blake3_digest(content_input(data, offset, file)),
{
    lemma_auto_spec_u128_to_from_le_bytes();
    lemma_auto_spec_u64_to_from_le_bytes();
    assert(token_input(delta).len() == token_domain().len() + delta.hash@.len());
    assert(content_input(data, offset, file).len() == 24 + data.len());
}

fn file_id_bytes_exec(file: FileId) -> (r: Vec<u8>)
    ensures
        r@ == file_id_bytes(file),
{
    let le: Vec<u8> = u128_to_le_bytes(file.id);
    proof {
        lemma_auto_spec_u128_to_from_le_bytes();
    }
    let mut out: Vec<u8> = Vec::new();
    let mut i: usize = le.len();
    while i > 0
        invariant
            i <= le@.len(),
            out@ =~= le@.subrange(i as int, le@.len() as int).reverse(),
        decreases i,
    {
        i -= 1;
        out.push(le[i]);
    }
    assert(le@.subrange(0, le@.len() as int) =~= le@);
    out
}

/// Digest of plain content.
pub fn compute_chunk_hash(data: &[u8]) -> (digest: [u8; 32])
    ensures
        digest == blake3_digest(data@),
{
    let none: Vec<u8> = Vec::new();
    assert(none@ + none@ + data@ =~= data@);
    blake3_of_parts(none.as_slice(), none.as_slice(), data)
}

/// Digest of content at a place of a file.
pub fn compute_chunk_hash_at(data: &[u8], offset: u64, file_id: FileId) -> (digest: [u8; 32])
    ensures
        digest == content_digest_at(data@, offset, file_id),
{
    let file: Vec<u8> = file_id_bytes_exec(file_id);
    let place: Vec<u8> = u64_to_le_bytes(offset);
    blake3_of_parts(file.as_slice(), place.as_slice(), data)
}

/// The public token of a patch whose delta has the given identity.
pub fn public_token(delta: ChunkId) -> (token: ChunkId)
    ensures
        token == patch_token(delta),
{
    let domain: [u8; 15] = [100, 102, 115, 45, 112, 97, 116, 99, 104, 45, 116, 111, 107, 101, 110];
    let none: Vec<u8> = Vec::new();
    assert(domain@ =~= token_domain());
    assert(domain@ + delta.hash@ + none@ =~= token_domain() + delta.hash@);
    ChunkId { hash: blake3_of_parts(domain.as_slice(), delta.hash.as_slice(), none.as_slice()) }
}

} // verus!
