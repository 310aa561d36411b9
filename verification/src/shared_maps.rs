//! The concurrent hash maps and sets of the `dashmap` crate, as a node's state uses them.
//!
//! A `DashMap` or a `DashSet` can be written through a shared reference. The functions here that
//! change one take it by exclusive reference, so between two calls its contents stay what they
//! were.
use crate::types::{locs, ChunkLocation, FileMetadata, FileRec, Loc};
use dashmap::{DashMap, DashSet};
use vstd::prelude::*;

verus! {

/// `dashmap::DashMap`, an opaque type.
#[verifier::external_type_specification]
#[verifier::external_body]
#[verifier::reject_recursive_types(K)]
#[verifier::reject_recursive_types(V)]
#[verifier::reject_recursive_types(S)]
pub struct ExDashMap<K, V, S>(DashMap<K, V, S>);

/// The entries of the map from files to their chunk locations and write sequence.
pub uninterp spec fn file_entries(map: DashMap<u128, (Vec<ChunkLocation>, u64)>) -> Map<
    u128,
    (Seq<Loc>, u64),
>;

/// The entries of the map from chunks to the files that own them.
pub uninterp spec fn owner_entries(map: DashMap<[u8; 32], u128>) -> Map<[u8; 32], u128>;

/// `DashMap::new`: a map without entries.
#[verifier::external_body]
pub(crate) fn files_new() -> (map: DashMap<u128, (Vec<ChunkLocation>, u64)>)
    ensures
        (file_entries(map) == Map::<u128, (Seq<Loc>, u64)>::empty()),
{
    DashMap::new()
}

/// `DashMap::get`, with a copy of the value: the value stored under the key, if there is one.
#[verifier::external_body]
pub(crate) fn files_get(map: &DashMap<u128, (Vec<ChunkLocation>, u64)>, file: u128) -> (r: Option<
    (Vec<ChunkLocation>, u64),
>)
    ensures
        match r {
            Some(e) => file_entries(*map).dom().contains(file) && file_entries(*map)[file] == (
                locs(e.0@),
                e.1,
            ),
            None => !file_entries(*map).dom().contains(file),
        },
{
    map.get(&file).map(|e| e.value().clone())
}

/// `DashMap::insert`: the key now holds the value, every other key what it held.
#[verifier::external_body]
pub(crate) fn files_insert(
    map: &mut DashMap<u128, (Vec<ChunkLocation>, u64)>,
    file: u128,
    entry: (Vec<ChunkLocation>, u64),
)
    ensures
        file_entries(*final(map)) == file_entries(*old(map)).insert(
            file,
            (locs(entry.0@), entry.1),
        ),
{
    map.insert(file, entry);
}

/// `DashMap::remove`: takes the key out and hands back the value it held.
#[verifier::external_body]
pub(crate) fn files_remove(
    map: &mut DashMap<u128, (Vec<ChunkLocation>, u64)>,
    file: u128,
) -> (r: Option<(Vec<ChunkLocation>, u64)>)
    ensures
        file_entries(*final(map)) == file_entries(*old(map)).remove(file),
        match r {
            Some(e) => file_entries(*old(map)).dom().contains(file) && file_entries(
                *old(map),
            )[file] == (locs(e.0@), e.1),
            None => !file_entries(*old(map)).dom().contains(file),
        },
{
    map.remove(&file).map(|e| e.1)
}

/// `DashMap::iter`, handing out the keys: each key of the map once, in no particular order.
#[verifier::external_body]
pub(crate) fn files_keys(map: &DashMap<u128, (Vec<ChunkLocation>, u64)>) -> (keys: Vec<u128>)
    ensures
        keys@.no_duplicates(),
        keys@.to_set() == file_entries(*map).dom(),
{
    map.iter().map(|e| *e.key()).collect()
}

/// `DashMap::new`: a map without entries.
#[verifier::external_body]
pub(crate) fn owners_new() -> (map: DashMap<[u8; 32], u128>)
    ensures
        (owner_entries(map) == Map::<[u8; 32], u128>::empty()),
{
    DashMap::new()
}

/// `DashMap::get`: the value stored under the key, if there is one.
#[verifier::external_body]
pub(crate) fn owners_get(map: &DashMap<[u8; 32], u128>, chunk: [u8; 32]) -> (r: Option<u128>)
    ensures
        r == (if owner_entries(*map).dom().contains(chunk) {
            Some(owner_entries(*map)[chunk])
        } else {
            None
        }),
{
    map.get(&chunk).map(|e| *e.value())
}

/// `DashMap::insert`: the key now holds the value, every other key what it held.
#[verifier::external_body]
pub(crate) fn owners_insert(map: &mut DashMap<[u8; 32], u128>, chunk: [u8; 32], file: u128)
    ensures
        owner_entries(*final(map)) == owner_entries(*old(map)).insert(chunk, file),
{
    map.insert(chunk, file);
}

/// `DashMap::remove`: the key holds nothing any more, every other key what it held.
#[verifier::external_body]
pub(crate) fn owners_remove(map: &mut DashMap<[u8; 32], u128>, chunk: [u8; 32])
    ensures
        owner_entries(*final(map)) == owner_entries(*old(map)).remove(chunk),
{
    map.remove(&chunk);
}

/// The entries of the map from files to the highest write sequence seen of them.
pub uninterp spec fn seq_entries(map: DashMap<u128, u64>) -> Map<u128, u64>;

/// `DashMap::new`: a map without entries.
#[verifier::external_body]
pub(crate) fn seqs_new() -> (map: DashMap<u128, u64>)
    ensures
        (seq_entries(map) == Map::<u128, u64>::empty()),
{
    DashMap::new()
}

/// `DashMap::get`: the value stored under the key, if there is one.
#[verifier::external_body]
pub(crate) fn seqs_get(map: &DashMap<u128, u64>, file: u128) -> (r: Option<u64>)
    ensures
        r == (if seq_entries(*map).dom().contains(file) {
            Some(seq_entries(*map)[file])
        } else {
            None
        }),
{
    map.get(&file).map(|e| *e.value())
}

/// `DashMap::insert`: the key now holds the value, every other key what it held.
#[verifier::external_body]
pub(crate) fn seqs_insert(map: &mut DashMap<u128, u64>, file: u128, seq: u64)
    ensures
        seq_entries(*final(map)) == seq_entries(*old(map)).insert(file, seq),
{
    map.insert(file, seq);
}

/// `DashMap::remove`: the key holds nothing any more, every other key what it held.
#[verifier::external_body]
pub(crate) fn seqs_remove(map: &mut DashMap<u128, u64>, file: u128)
    ensures
        seq_entries(*final(map)) == seq_entries(*old(map)).remove(file),
{
    map.remove(&file);
}

/// The entries of the map from files to their changed records.
pub uninterp spec fn record_entries(map: DashMap<u128, FileMetadata>) -> Map<u128, FileRec>;

/// `DashMap::new`: a map without entries.
#[verifier::external_body]
pub(crate) fn records_new() -> (map: DashMap<u128, FileMetadata>)
    ensures
        (record_entries(map) == Map::<u128, FileRec>::empty()),
{
    DashMap::new()
}

/// `DashMap::insert`: the key now holds the value, every other key what it held.
#[verifier::external_body]
pub(crate) fn records_insert(map: &mut DashMap<u128, FileMetadata>, file: u128, m: FileMetadata)
    ensures
        record_entries(*final(map)) == record_entries(*old(map)).insert(file, m@),
{
    map.insert(file, m);
}

/// `DashMap::remove`: the key holds nothing any more, every other key what it held.
#[verifier::external_body]
pub(crate) fn records_remove(map: &mut DashMap<u128, FileMetadata>, file: u128)
    ensures
        record_entries(*final(map)) == record_entries(*old(map)).remove(file),
{
    map.remove(&file);
}

/// `DashMap::iter`, handing out the entries: each entry of the map once, in no particular order.
#[verifier::external_body]
pub(crate) fn records_list(map: &DashMap<u128, FileMetadata>) -> (list: Vec<(u128, FileMetadata)>)
    ensures
        lists_records(record_entries(*map), keyed(list@)),
{
    map.iter().map(|e| (*e.key(), e.value().clone())).collect()
}

/// `DashMap::clear`: the map has no entries any more.
#[verifier::external_body]
pub(crate) fn records_clear(map: &mut DashMap<u128, FileMetadata>)
    ensures
        (record_entries(*final(map)) == Map::<u128, FileRec>::empty()),
{
    map.clear();
}

pub open spec fn keyed(s: Seq<(u128, FileMetadata)>) -> Seq<(u128, FileRec)> {
    s.map_values(|e: (u128, FileMetadata)| (e.0, e.1@))
}

/// The list holds every entry of the map, each once.
pub open spec fn lists_records(map: Map<u128, FileRec>, list: Seq<(u128, FileRec)>) -> bool {
    &&& forall|i: int|
        0 <= i < list.len() ==> map.dom().contains((#[trigger] list[i]).0) && map[list[i].0]
            == list[i].1
    &&& forall|i: int, j: int|
        0 <= i < j < list.len() ==> (#[trigger] list[i]).0 != (#[trigger] list[j]).0
    &&& forall|k: u128| #[trigger]
        map.dom().contains(k) ==> exists|i: int| 0 <= i < list.len() && (#[trigger] list[i]).0 == k
}

/// The entries of the map from files to the last write to each, with the time at which it came.
pub uninterp spec fn write_entries(map: DashMap<u128, (FileMetadata, u64)>) -> Map<
    u128,
    (FileRec, u64),
>;

/// `DashMap::new`: a map without entries.
#[verifier::external_body]
pub(crate) fn writes_new() -> (map: DashMap<u128, (FileMetadata, u64)>)
    ensures
        (write_entries(map) == Map::<u128, (FileRec, u64)>::empty()),
{
    DashMap::new()
}

/// `DashMap::get`, with a copy of the value: the value stored under the key, if there is one.
#[verifier::external_body]
pub(crate) fn writes_get(map: &DashMap<u128, (FileMetadata, u64)>, file: u128) -> (r: Option<
    (FileMetadata, u64),
>)
    ensures
        match r {
            Some(e) => write_entries(*map).dom().contains(file) && write_entries(*map)[file] == (
                e.0@,
                e.1,
            ),
            None => !write_entries(*map).dom().contains(file),
        },
{
    map.get(&file).map(|e| e.value().clone())
}

/// `DashMap::insert`: the key now holds the value, every other key what it held.
#[verifier::external_body]
pub(crate) fn writes_insert(
    map: &mut DashMap<u128, (FileMetadata, u64)>,
    file: u128,
    write: (FileMetadata, u64),
)
    ensures
        write_entries(*final(map)) == write_entries(*old(map)).insert(file, (write.0@, write.1)),
{
    map.insert(file, write);
}

/// `DashMap::remove`: the key holds nothing any more, every other key what it held.
#[verifier::external_body]
pub(crate) fn writes_remove(map: &mut DashMap<u128, (FileMetadata, u64)>, file: u128)
    ensures
        write_entries(*final(map)) == write_entries(*old(map)).remove(file),
{
    map.remove(&file);
}

/// The entries of the map from chunks that are part of a patch to the file and slot of it.
pub uninterp spec fn slot_entries(map: DashMap<[u8; 32], (u128, u64)>) -> Map<
    [u8; 32],
    (u128, u64),
>;

/// `DashMap::new`: a map without entries.
#[verifier::external_body]
pub(crate) fn slots_new() -> (map: DashMap<[u8; 32], (u128, u64)>)
    ensures
        (slot_entries(map) == Map::<[u8; 32], (u128, u64)>::empty()),
{
    DashMap::new()
}

/// `DashMap::get`: the value stored under the key, if there is one.
#[verifier::external_body]
pub(crate) fn slots_get(map: &DashMap<[u8; 32], (u128, u64)>, chunk: [u8; 32]) -> (r: Option<
    (u128, u64),
>)
    ensures
        r == (if slot_entries(*map).dom().contains(chunk) {
            Some(slot_entries(*map)[chunk])
        } else {
            None
        }),
{
    map.get(&chunk).map(|e| *e.value())
}

/// `DashMap::insert`: the key now holds the value, every other key what it held.
#[verifier::external_body]
pub(crate) fn slots_insert(
    map: &mut DashMap<[u8; 32], (u128, u64)>,
    chunk: [u8; 32],
    slot: (u128, u64),
)
    ensures
        slot_entries(*final(map)) == slot_entries(*old(map)).insert(chunk, slot),
{
    map.insert(chunk, slot);
}

/// `DashMap::remove`: the key holds nothing any more, every other key what it held.
#[verifier::external_body]
pub(crate) fn slots_remove(map: &mut DashMap<[u8; 32], (u128, u64)>, chunk: [u8; 32])
    ensures
        slot_entries(*final(map)) == slot_entries(*old(map)).remove(chunk),
{
    map.remove(&chunk);
}

/// `dashmap::DashSet`, an opaque type.
#[verifier::external_type_specification]
#[verifier::external_body]
#[verifier::reject_recursive_types(K)]
#[verifier::reject_recursive_types(S)]
pub struct ExDashSet<K, S>(DashSet<K, S>);

/// The members of a set of files.
pub uninterp spec fn file_members(set: DashSet<u128>) -> Set<u128>;

/// `DashSet::new`: a set without members.
#[verifier::external_body]
pub(crate) fn files_set_new() -> (set: DashSet<u128>)
    ensures
        (file_members(set) == Set::<u128>::empty()),
{
    DashSet::new()
}

/// `DashSet::contains`: whether the set has the member.
#[verifier::external_body]
pub(crate) fn files_set_contains(set: &DashSet<u128>, file: u128) -> (r: bool)
    ensures
        r == file_members(*set).contains(file),
{
    set.contains(&file)
}

/// `DashSet::insert`: adds a member.
#[verifier::external_body]
pub(crate) fn files_set_insert(set: &mut DashSet<u128>, file: u128)
    ensures
        file_members(*final(set)) == file_members(*old(set)).insert(file),
{
    set.insert(file);
}

/// `DashSet::remove`: takes a member out.
#[verifier::external_body]
pub(crate) fn files_set_remove(set: &mut DashSet<u128>, file: u128)
    ensures
        file_members(*final(set)) == file_members(*old(set)).remove(file),
{
    set.remove(&file);
}

/// The members of a set of chunks.
pub uninterp spec fn chunk_members(set: DashSet<[u8; 32]>) -> Set<[u8; 32]>;

/// `DashSet::new`: a set without members.
#[verifier::external_body]
pub(crate) fn chunks_set_new() -> (set: DashSet<[u8; 32]>)
    ensures
        (chunk_members(set) == Set::<[u8; 32]>::empty()),
{
    DashSet::new()
}

/// `DashSet::contains`: whether the set has the member.
#[verifier::external_body]
pub(crate) fn chunks_set_contains(set: &DashSet<[u8; 32]>, chunk: [u8; 32]) -> (r: bool)
    ensures
        r == chunk_members(*set).contains(chunk),
{
    set.contains(&chunk)
}

/// `DashSet::insert`: adds a member.
#[verifier::external_body]
pub(crate) fn chunks_set_insert(set: &mut DashSet<[u8; 32]>, chunk: [u8; 32])
    ensures
        chunk_members(*final(set)) == chunk_members(*old(set)).insert(chunk),
{
    set.insert(chunk);
}

/// `DashSet::remove`: takes a member out.
#[verifier::external_body]
pub(crate) fn chunks_set_remove(set: &mut DashSet<[u8; 32]>, chunk: [u8; 32])
    ensures
        chunk_members(*final(set)) == chunk_members(*old(set)).remove(chunk),
{
    set.remove(&chunk);
}

/// `DashSet::iter`, handing out the members: each member of the set once, in no particular order.
#[verifier::external_body]
pub(crate) fn chunks_set_list(set: &DashSet<[u8; 32]>) -> (list: Vec<[u8; 32]>)
    ensures
        list@.no_duplicates(),
        list@.to_set() == chunk_members(*set),
{
    set.iter().map(|e| *e.key()).collect()
}

/// The entries of the map from deletion reasons to how often they were given.
pub uninterp spec fn reason_entries(map: DashMap<String, u64>) -> Map<Seq<char>, u64>;

/// `DashMap::new`: a map without entries.
#[verifier::external_body]
pub(crate) fn reasons_new() -> (map: DashMap<String, u64>)
    ensures
        (reason_entries(map) == Map::<Seq<char>, u64>::empty()),
{
    DashMap::new()
}

/// `DashMap::get`: the value stored under the key, if there is one.
#[verifier::external_body]
pub(crate) fn reasons_get(map: &DashMap<String, u64>, reason: &str) -> (r: Option<u64>)
    ensures
        r == (if reason_entries(*map).dom().contains(reason@) {
            Some(reason_entries(*map)[reason@])
        } else {
            None
        }),
{
    map.get(reason).map(|e| *e.value())
}

/// `DashMap::insert`: the key now holds the value, every other key what it held.
#[verifier::external_body]
pub(crate) fn reasons_insert(map: &mut DashMap<String, u64>, reason: String, count: u64)
    ensures
        reason_entries(*final(map)) == reason_entries(*old(map)).insert(reason@, count),
{
    map.insert(reason, count);
}

/// `DashMap::iter`, handing out the entries: each entry of the map once, in no particular order.
#[verifier::external_body]
pub(crate) fn reasons_list(map: &DashMap<String, u64>) -> (list: Vec<(String, u64)>)
    ensures
        lists_reasons(reason_entries(*map), list@),
{
    map.iter().map(|e| (e.key().clone(), *e.value())).collect()
}

/// The list holds every entry of the map, each once.
pub open spec fn lists_reasons(map: Map<Seq<char>, u64>, list: Seq<(String, u64)>) -> bool {
    &&& forall|i: int|
        0 <= i < list.len() ==> map.dom().contains((#[trigger] list[i]).0@) && map[list[i].0@]
            == list[i].1
    &&& forall|i: int, j: int|
        0 <= i < j < list.len() ==> (#[trigger] list[i]).0@ != (#[trigger] list[j]).0@
    &&& forall|k: Seq<char>| #[trigger]
        map.dom().contains(k) ==> exists|i: int| 0 <= i < list.len() && (#[trigger] list[i]).0@ == k
}

} // verus!
