//! The stored form of a patch: what a delta chunk holds.
use vstd::prelude::*;

verus! {

/// What a list of patches says: for each, where it goes and what it writes.
pub open spec fn patch_list(s: Seq<(usize, Vec<u8>)>) -> Seq<(usize, Seq<u8>)> {
    s.map_values(|p: (usize, Vec<u8>)| (p.0, p.1@))
}

/// The bytes that stand for a list of patches, or why there are none.
pub uninterp spec fn delta_encoding(patches: Seq<(usize, Seq<u8>)>) -> Result<
    Seq<u8>,
    Seq<char>,
>;

/// The list of patches that bytes stand for, or why there is none.
pub uninterp spec fn delta_decoding(bytes: Seq<u8>) -> Result<
    Seq<(usize, Seq<u8>)>,
    Seq<char>,
>;

/// `bincode::serialize` on a list of patches, its error as text. What it writes,
/// `bincode::deserialize` reads back as the same list.
#[verifier::external_body]
pub(crate) fn encode_delta(patches: &Vec<(usize, Vec<u8>)>) -> (r: Result<Vec<u8>, String>)
    ensures
        match r {
            Ok(bytes) => delta_encoding(patch_list(patches@)) == Ok::<Seq<u8>, Seq<char>>(bytes@)
                && delta_decoding(bytes@) == Ok::<Seq<(usize, Seq<u8>)>, Seq<char>>(
                patch_list(patches@),
            ),
            Err(text) => delta_encoding(patch_list(patches@)) == Err::<Seq<u8>, Seq<char>>(text@),
        },
{
    bincode::serialize(patches).map_err(|e| e.to_string())
}

/// `bincode::deserialize` to a list of patches, its error as text.
#[verifier::external_body]
pub(crate) fn decode_delta(bytes: &[u8]) -> (r: Result<Vec<(usize, Vec<u8>)>, String>)
    ensures
        match r {
            Ok(patches) => delta_decoding(bytes@) == Ok::<Seq<(usize, Seq<u8>)>, Seq<char>>(
                patch_list(patches@),
            ),
            Err(text) => delta_decoding(bytes@) == Err::<Seq<(usize, Seq<u8>)>, Seq<char>>(text@),
        },
{
    bincode::deserialize(bytes).map_err(|e| e.to_string())
}

} // verus!
