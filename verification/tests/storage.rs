use dfs_server::chunk_file::{after_file_step, FileStep};
use dfs_server::cache::ChunkCache;
use dfs_server::digest::{compute_chunk_hash, compute_chunk_hash_at};
use dfs_server::names::{
    calculate_cache_size, chunk_id_from_filename, hex_to_bytes, is_temp_name_exec, linger_setting,
    parse_u64, switch_setting, temp_name,
};
use dfs_server::protocol::Response;
use dfs_server::storage::{
    clamp_range, collect_chunks, count_chunks, get_filesystem_stats, next_write_seq,
    read_chunk_range_arc, young_chunk_age, ChunkSource, ChunkStorage, DurabilityClass,
    DurabilityCoalescer, FlushStep, RangeSource, Warmth,
};
use dfs_server::types::{ChunkId, ErrorCode, FileId};
use dfs_server::write_path::check_checksum;
use std::collections::BTreeMap;
use std::sync::Arc;

struct Disk {
    files: BTreeMap<String, Vec<u8>>,
    storage: ChunkStorage,
    counter: u64,
}

impl Disk {
    fn new() -> Disk {
        Disk { files: BTreeMap::new(), storage: ChunkStorage::new(8, false), counter: 0 }
    }

    /// Writes a chunk as the steps of the library say.
    fn write(&mut self, chunk_id: &ChunkId, data: &[u8]) {
        let name = chunk_id.storage_path_components().2;
        let temp = temp_name(&name, next_write_seq(&mut self.counter));
        let mut step = FileStep::MakeDirectory;
        while step != FileStep::Finish {
            match step {
                FileStep::Create => {
                    self.files.insert(temp.clone(), Vec::new());
                }
                FileStep::Write => self.files.get_mut(&temp).unwrap().extend_from_slice(data),
                FileStep::Rename => {
                    let written = self.files.remove(&temp).unwrap();
                    self.files.insert(name.clone(), written);
                }
                _ => {}
            }
            step = after_file_step(step, self.storage.coalescing_enabled(), true, &name).unwrap();
        }
        self.storage.write_chunk(chunk_id);
    }

    fn has(&self, chunk_id: &ChunkId) -> bool {
        self.files.contains_key(&chunk_id.storage_path_components().2)
    }

    fn read(&mut self, chunk_id: &ChunkId) -> Option<Arc<Vec<u8>>> {
        match self.storage.read_chunk_arc(chunk_id) {
            ChunkSource::Cached(hit) => Some(hit),
            ChunkSource::OnDisk => {
                let name = chunk_id.storage_path_components().2;
                let file = self.files.get(&name).cloned().ok_or("no such file".to_string());
                self.storage.chunk_read(*chunk_id, file).ok()
            }
        }
    }

    fn delete(&mut self, chunk_id: &ChunkId, reason: &str) {
        self.storage.count_delete(reason);
        self.files.remove(&chunk_id.storage_path_components().2);
        self.storage.delete_chunk(chunk_id);
    }

    fn scan(&self) -> Vec<ChunkId> {
        let names: Vec<String> = self.files.keys().cloned().collect();
        collect_chunks(&names)
    }

    fn page(&mut self, after: Option<ChunkId>, limit: usize) -> Vec<ChunkId> {
        let found = self.scan();
        self.storage.list_chunks_page(&found, after, limit)
    }
}

#[test]
fn test_write_and_read_chunk() {
    let mut disk = Disk::new();
    let data = b"Hello, DFS!";
    let chunk_id = ChunkId::from_hash(compute_chunk_hash(data));
    disk.write(&chunk_id, data);
    assert!(disk.has(&chunk_id));
    assert_eq!(disk.files.len(), 1, "no temporary file is left");
    assert!(disk.storage.read_chunk_cached_only(&chunk_id).is_none());
    let read_data = disk.read(&chunk_id).unwrap();
    assert_eq!(data, read_data.as_slice());
    let cached = disk.storage.read_chunk_cached_only(&chunk_id).unwrap();
    assert_eq!(data, cached.as_slice());
    let again = disk.read(&chunk_id).unwrap();
    assert_eq!(data, again.as_slice());
    assert!(disk.read(&ChunkId::from_hash([0u8; 32])).is_none());
}

#[test]
fn test_delete_chunk() {
    let mut disk = Disk::new();
    let data = b"Test data";
    let chunk_id = ChunkId::from_hash(compute_chunk_hash(data));
    disk.write(&chunk_id, data);
    assert!(disk.has(&chunk_id));
    disk.delete(&chunk_id, "test");
    assert!(!disk.has(&chunk_id));
    assert_eq!(disk.storage.delete_reason_counts_snapshot(), vec![("test".to_string(), 1)]);
}

#[test]
fn test_storage_stats() {
    let mut disk = Disk::new();
    let data1 = b"First chunk";
    let data2 = b"Second chunk";
    let chunk1 = ChunkId::from_hash(compute_chunk_hash(data1));
    let chunk2 = ChunkId::from_hash(compute_chunk_hash(data2));
    disk.write(&chunk1, data1);
    disk.write(&chunk2, data2);
    let mut files: Vec<(String, Option<u64>)> =
        disk.files.iter().map(|(n, d)| (n.clone(), Some(d.len() as u64))).collect();
    files.push(("half.7.tmp".to_string(), Some(99)));
    let stats = count_chunks(&files);
    assert_eq!(stats.total_chunks, 2);
    assert_eq!(stats.total_bytes, (data1.len() + data2.len()) as u64);
}

#[test]
fn test_list_chunks() {
    let mut disk = Disk::new();
    let data1 = b"Chunk 1";
    let data2 = b"Chunk 2";
    let chunk1 = ChunkId::from_hash(compute_chunk_hash(data1));
    let chunk2 = ChunkId::from_hash(compute_chunk_hash(data2));
    disk.write(&chunk1, data1);
    disk.write(&chunk2, data2);
    let found = disk.scan();
    let chunks = disk.storage.list_chunks(&found);
    assert_eq!(chunks.len(), 2);
    assert!(chunks.contains(&chunk1));
    assert!(chunks.contains(&chunk2));
}

#[test]
fn test_list_chunks_page_full_rotation_no_dupes_no_gaps() {
    let mut disk = Disk::new();
    let mut expected: Vec<ChunkId> = Vec::new();
    for i in 0..23u32 {
        let data = format!("chunk-{}", i).into_bytes();
        let chunk_id = ChunkId::from_hash(compute_chunk_hash(&data));
        disk.write(&chunk_id, &data);
        expected.push(chunk_id);
    }
    let mut collected: Vec<ChunkId> = Vec::new();
    let mut cursor = None;
    loop {
        let page = disk.page(cursor, 5);
        if page.is_empty() {
            break;
        }
        cursor = Some(*page.last().unwrap());
        collected.extend(page);
    }
    assert_eq!(collected.len(), expected.len(), "page walk should visit every chunk exactly once");
    for c in &expected {
        assert_eq!(collected.iter().filter(|d| *d == c).count(), 1);
    }
    for w in collected.windows(2) {
        assert!(w[0].precedes(&w[1]), "pages must be strictly ascending across the whole rotation");
        assert!(w[0].hash < w[1].hash);
    }
}

#[test]
fn test_list_chunks_page_mid_rotation_insert_picked_up_next_rotation() {
    let mut disk = Disk::new();
    for i in 0..4u32 {
        let data = format!("initial-{}", i).into_bytes();
        let chunk_id = ChunkId::from_hash(compute_chunk_hash(&data));
        disk.write(&chunk_id, &data);
    }
    let first_page = disk.page(None, 2);
    assert_eq!(first_page.len(), 2);

    let new_data = b"inserted-mid-rotation";
    let new_chunk = ChunkId::from_hash(compute_chunk_hash(new_data));
    disk.write(&new_chunk, new_data);

    let mut cursor = Some(*first_page.last().unwrap());
    loop {
        let page = disk.page(cursor, 2);
        if page.is_empty() {
            break;
        }
        cursor = Some(*page.last().unwrap());
    }

    let mut next_rotation = Vec::new();
    let mut cursor = None;
    loop {
        let page = disk.page(cursor, 2);
        if page.is_empty() {
            break;
        }
        cursor = Some(*page.last().unwrap());
        next_rotation.extend(page);
    }
    assert!(
        next_rotation.contains(&new_chunk),
        "chunk inserted mid-rotation must appear on the next rotation"
    );
    assert_eq!(next_rotation.len(), 5, "next rotation should see all 5 chunks now on disk");
}

#[test]
fn test_checksum_verification_on_write() {
    let data = b"Test data";
    let wrong_hash = [0u8; 32];
    let chunk_id = ChunkId::from_hash(wrong_hash);
    match check_checksum(chunk_id, compute_chunk_hash(data)) {
        Some(Response::Error { message, code }) => {
            assert_eq!(message, "Checksum mismatch");
            assert_eq!(code, ErrorCode::ChecksumMismatch);
        }
        other => panic!("expected a refusal, got {:?}", other),
    }
    let right = ChunkId::from_hash(compute_chunk_hash(data));
    assert!(check_checksum(right, compute_chunk_hash(data)).is_none());
}

#[test]
fn a_deleted_chunk_leaves_index_and_cache() {
    let mut disk = Disk::new();
    let a = ChunkId::from_hash([1; 32]);
    let b = ChunkId::from_hash([2; 32]);
    disk.write(&a, b"a");
    disk.write(&b, b"b");
    disk.page(None, 10);
    disk.read(&a).unwrap();
    disk.delete(&a, "sweep");
    disk.delete(&a, "sweep");
    assert_eq!(disk.page(None, 10), vec![b]);
    assert!(disk.storage.read_chunk_cached_only(&a).is_none());
    assert_eq!(disk.storage.delete_reason_counts_snapshot(), vec![("sweep".to_string(), 2)]);
    assert_eq!(disk.storage.list_chunks(&vec![]), vec![b]);
}

#[test]
fn a_rewritten_chunk_is_listed_in_place_of_the_old_one() {
    let mut disk = Disk::new();
    let (a, b, c) =
        (ChunkId::from_hash([1; 32]), ChunkId::from_hash([2; 32]), ChunkId::from_hash([3; 32]));
    disk.storage.chunk_rewritten(&a, &b);
    assert!(disk.storage.needs_scan());
    disk.write(&a, b"a");
    disk.write(&b, b"b");
    assert_eq!(disk.page(None, 10), vec![a, b]);
    disk.read(&a).unwrap();
    disk.storage.cache_put(c, Arc::new(vec![0]));
    disk.storage.chunk_rewritten(&a, &c);
    assert_eq!(disk.storage.list_chunks(&vec![]), vec![b, c]);
    assert!(disk.storage.read_chunk_cached_only(&a).is_none());
    assert!(disk.storage.read_chunk_cached_only(&c).is_none());
    disk.storage.chunk_rewritten(&c, &c);
    assert_eq!(disk.storage.list_chunks(&vec![]), vec![b, c]);
}

#[test]
fn the_cache_drops_what_was_not_used_for_longest() {
    let id = |i: u8| ChunkId::from_hash([i; 32]);
    let mut c = ChunkCache::new(2);
    c.put(id(1), Arc::new(vec![1]));
    c.put(id(2), Arc::new(vec![2]));
    assert_eq!(c.get(&id(1)).unwrap().as_slice(), &[1]);
    c.put(id(3), Arc::new(vec![3]));
    assert!(!c.contains(&id(2)));
    assert!(c.contains(&id(1)));
    assert!(c.contains(&id(1)));
    c.put(id(4), Arc::new(vec![4]));
    assert!(!c.contains(&id(1)));
    assert_eq!(c.len(), 2);
    c.put(id(3), Arc::new(vec![33]));
    assert_eq!(c.get(&id(3)).unwrap().as_slice(), &[33]);
    c.rekey(id(3), id(5), Arc::new(vec![5]));
    assert!(!c.contains(&id(3)));
    assert_eq!(c.get(&id(5)).unwrap().as_slice(), &[5]);
    c.rekey(id(5), id(5), Arc::new(vec![6]));
    assert!(c.get(&id(5)).is_none());
    c.pop(&id(4));
    assert_eq!(c.len(), 0);
}

#[test]
fn warming_the_cache() {
    let mut s = ChunkStorage::new(4, true);
    let a = ChunkId::from_hash([1; 32]);
    assert!(s.coalescing_enabled());
    assert!(matches!(s.warm_cache(&a, false), Warmth::NotFound));
    assert!(!s.warm_cache(&a, false).loaded());
    assert_eq!(s.get_cache_stats(), (4, 0));
    assert!(matches!(s.warm_cache(&a, true), Warmth::ReadIt));
    assert!(s.warm_cache(&a, true).loaded());
    s.cache_put(a, Arc::new(vec![9]));
    assert!(matches!(s.warm_cache(&a, true), Warmth::AlreadyWarm));
    assert!(!s.warm_cache(&a, true).loaded());
    assert_eq!(s.get_cache_stats(), (4, 1));
    s.invalidate_cache(&a);
    assert_eq!(s.get_cache_stats(), (4, 0));
}

#[test]
fn a_stored_chunk_is_checked_at_its_place() {
    let file = FileId { id: 5 };
    let data = b"bytes".to_vec();
    let id = ChunkId::from_hash(compute_chunk_hash_at(&data, 7, file));
    assert!(ChunkStorage::verify_chunk_at(&id, 7, Some(file), Some(&data)));
    assert!(!ChunkStorage::verify_chunk_at(&id, 8, Some(file), Some(&data)));
    assert!(!ChunkStorage::verify_chunk_at(&id, 7, Some(file), None));
    assert!(ChunkStorage::verify_chunk_at(&id, 7, None, None));
}

#[test]
fn ranges_are_clamped() {
    assert_eq!(clamp_range(10, 3, 4), Ok((3, 7)));
    assert_eq!(clamp_range(10, 3, 40), Ok((3, 10)));
    assert_eq!(clamp_range(10, 10, 1), Err("Offset 10 beyond chunk size 10".to_string()));
    assert_eq!(clamp_range(0, 0, 0), Err("Offset 0 beyond chunk size 0".to_string()));
}

#[test]
fn young_chunks_are_noticed() {
    assert_eq!(young_chunk_age(Some(100), 399), Some(299));
    assert_eq!(young_chunk_age(Some(100), 400), None);
    assert_eq!(young_chunk_age(Some(100), 50), Some(0));
    assert_eq!(young_chunk_age(None, 50), None);
}

#[test]
fn names_of_chunk_files() {
    let mut hash = [0u8; 32];
    hash[0] = 0xab;
    hash[1] = 0x0f;
    hash[31] = 0x10;
    let id = ChunkId::from_hash(hash);
    let (d1, d2, name) = id.storage_path_components();
    assert_eq!((d1.as_str(), d2.as_str()), ("ab", "0f"));
    assert_eq!(name, format!("ab0f{}10", "0".repeat(58)));
    assert_eq!(chunk_id_from_filename(&name), Some(id));
    assert_eq!(chunk_id_from_filename(&name.to_uppercase()), Some(id));
    assert_eq!(chunk_id_from_filename("ab0f"), None);
    assert_eq!(chunk_id_from_filename(&"g".repeat(64)), None);
    assert_eq!(temp_name("ab", 17), "ab.17.tmp");
    assert!(is_temp_name_exec("ab.17.tmp"));
    assert!(!is_temp_name_exec(".tmp"));
    assert!(!is_temp_name_exec("tmp"));
}

#[test]
fn hexadecimal() {
    assert_eq!(hex_to_bytes("00ffA5"), Ok(vec![0, 255, 165]));
    assert_eq!(hex_to_bytes(""), Ok(vec![]));
    assert_eq!(hex_to_bytes("+f"), Ok(vec![15]));
    assert_eq!(hex_to_bytes("0x"), Err("Invalid hex string: 0x".to_string()));
    for pair in ["00", "7f", "+1", "-1", "fF", " 1", "1 ", "++"] {
        assert_eq!(
            hex_to_bytes(pair).ok(),
            u8::from_str_radix(pair, 16).ok().map(|b| vec![b]),
            "{}",
            pair
        );
    }
}

#[test]
fn numbers_in_settings() {
    for text in ["0", "17", "+4", "", "+", "-1", "18446744073709551615", "18446744073709551616", "1x"] {
        assert_eq!(parse_u64(text), text.parse::<u64>().ok(), "{}", text);
    }
    assert_eq!(linger_setting(Some("250")), 250);
    assert_eq!(linger_setting(Some("soon")), 1000);
    assert_eq!(linger_setting(None), 1000);
    assert!(switch_setting(Some("1")));
    assert!(switch_setting(Some("TrUe")));
    assert!(!switch_setting(Some("yes")));
    assert!(!switch_setting(Some("0")));
    assert!(!switch_setting(None));
    assert_eq!(calculate_cache_size(None, 1000), 125);
    assert_eq!(calculate_cache_size(Some("64"), 1000), 16);
    assert_eq!(calculate_cache_size(Some("3"), 1000), 1);
    assert_eq!(calculate_cache_size(Some("junk"), 7), 1);
}

#[test]
fn write_numbers_are_handed_out_once() {
    let mut counter = u64::MAX - 1;
    assert_eq!(next_write_seq(&mut counter), u64::MAX - 1);
    assert_eq!(next_write_seq(&mut counter), u64::MAX);
    assert_eq!(next_write_seq(&mut counter), 0);
}

#[test]
fn space_on_a_file_system() {
    assert_eq!(get_filesystem_stats(100, 40, 30, 4096), (409600, 163840, 122880));
}

#[test]
fn a_foreground_request_flushes_at_once() {
    let mut c = DurabilityCoalescer::new(1000);
    assert_eq!(c.next_step(0), FlushStep::Idle);
    assert_eq!(c.callers_gone(), FlushStep::Stop);
    assert_eq!(c.request(DurabilityClass::Foreground, 5), FlushStep::Flush);
    let replies = c.flushed(Ok(()));
    assert_eq!(replies, vec![Ok(())]);
    assert_eq!(c.take_summary(), (1, 1, 0));
    assert_eq!(c.take_summary(), (0, 0, 0));
}

#[test]
fn background_requests_share_a_flush() {
    let mut c = DurabilityCoalescer::new(1000);
    assert_eq!(c.request(DurabilityClass::Background, 10), FlushStep::WaitUntil(1010));
    assert_eq!(c.request(DurabilityClass::Background, 500), FlushStep::WaitUntil(1010));
    assert_eq!(c.next_step(1009), FlushStep::WaitUntil(1010));
    assert_eq!(c.next_step(1010), FlushStep::Flush);
    assert_eq!(c.callers_gone(), FlushStep::Flush);
    assert_eq!(c.request(DurabilityClass::Foreground, 600), FlushStep::Flush);
    c.sweep(DurabilityClass::Background);
    let replies = c.flushed(Err("syncfs failed: x".to_string()));
    assert_eq!(replies.len(), 4);
    assert!(replies.iter().all(|r| *r == Err("syncfs failed: x".to_string())));
    assert_eq!(c.take_summary(), (1, 1, 3));
    assert_eq!(c.next_step(2000), FlushStep::Idle);
}

#[test]
fn a_caller_learns_when_the_worker_is_gone() {
    let c = DurabilityCoalescer::new(0);
    assert_eq!(c.sync_durable(false, None), Err("durability coalescer worker gone".to_string()));
    assert_eq!(c.sync_durable(true, None), Err("durability coalescer dropped reply".to_string()));
    assert_eq!(c.sync_durable(true, Some(Ok(()))), Ok(()));
}

#[test]
fn a_chunk_file_is_written_under_another_name_first() {
    let run = |coalescing: bool| {
        let mut step = FileStep::MakeDirectory;
        let mut steps = vec![step];
        while step != FileStep::Finish {
            step = after_file_step(step, coalescing, true, "p").unwrap();
            steps.push(step);
        }
        steps
    };
    assert_eq!(
        run(false),
        vec![
            FileStep::MakeDirectory,
            FileStep::Create,
            FileStep::Write,
            FileStep::Sync,
            FileStep::Rename,
            FileStep::Finish
        ]
    );
    assert_eq!(
        run(true)[3..].to_vec(),
        vec![FileStep::Rename, FileStep::Flush, FileStep::Finish]
    );
    let complaint = |s: FileStep| after_file_step(s, true, false, "p").unwrap_err();
    assert_eq!(complaint(FileStep::MakeDirectory), "Failed to create chunk directory: p");
    assert_eq!(complaint(FileStep::Create), "Failed to create temporary file: p");
    assert_eq!(complaint(FileStep::Write), "Failed to write chunk data");
    assert_eq!(complaint(FileStep::Sync), "Failed to sync chunk data");
    assert_eq!(complaint(FileStep::Rename), "Failed to rename chunk file: p");
    assert_eq!(complaint(FileStep::Flush), "Failed to sync chunk data (coalesced)");
}

#[test]
fn reads_go_through_the_cache() {
    let mut s = ChunkStorage::new(2, false);
    let id = ChunkId::from_hash([7; 32]);
    assert!(matches!(s.read_chunk_arc(&id), ChunkSource::OnDisk));
    assert!(matches!(s.read_chunk_range_partial(&id, 9, 9), RangeSource::OnDisk));
    assert_eq!(s.chunk_read(id, Err("gone".to_string())).unwrap_err(), "gone");
    assert!(matches!(s.read_chunk_arc(&id), ChunkSource::OnDisk));
    assert_eq!(*s.chunk_read(id, Ok(vec![1, 2, 3, 4])).unwrap(), vec![1, 2, 3, 4]);
    match s.read_chunk_arc(&id) {
        ChunkSource::Cached(data) => assert_eq!(*data, vec![1, 2, 3, 4]),
        other => panic!("expected cached bytes, got {:?}", other),
    }
    match s.read_chunk_range_partial(&id, 1, 2) {
        RangeSource::Cached(data) => assert_eq!(data, vec![2, 3]),
        other => panic!("expected cached bytes, got {:?}", other),
    }
    match s.read_chunk_range_partial(&id, 3, 20) {
        RangeSource::Cached(data) => assert_eq!(data, vec![4]),
        other => panic!("expected cached bytes, got {:?}", other),
    }
    match s.read_chunk_range_partial(&id, 4, usize::MAX) {
        RangeSource::Refused(why) => assert_eq!(why, "Offset 4 beyond chunk size 4"),
        other => panic!("expected a refusal, got {:?}", other),
    }
    let (_, start, end) = read_chunk_range_arc(Arc::new(vec![1, 2, 3]), 1, 9).unwrap();
    assert_eq!((start, end), (1, 3));
    assert_eq!(
        read_chunk_range_arc(Arc::new(vec![1]), 1, 0).unwrap_err(),
        "Offset 1 beyond chunk size 1"
    );
}

#[test]
fn each_request_for_durability_gets_one_answer() {
    let mut c = DurabilityCoalescer::new(1000);
    assert_eq!(c.request(DurabilityClass::Background, 0), FlushStep::WaitUntil(1000));
    assert_eq!(c.request(DurabilityClass::Background, 10), FlushStep::WaitUntil(1000));
    assert_eq!(c.request(DurabilityClass::Foreground, 20), FlushStep::Flush);
    c.sweep(DurabilityClass::Background);
    let mut answers = c.flushed(Err("syncfs failed: x".to_string()));
    assert_eq!(c.next_step(30), FlushStep::Idle);
    assert_eq!(c.request(DurabilityClass::Foreground, 40), FlushStep::Flush);
    answers.extend(c.flushed(Ok(())));
    let failed: Result<(), String> = Err("syncfs failed: x".to_string());
    assert_eq!(answers, vec![failed.clone(), failed.clone(), failed.clone(), failed, Ok(())]);
    assert_eq!(c.callers_gone(), FlushStep::Stop);
}
