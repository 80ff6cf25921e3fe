use std::sync::Mutex;

use lnx_store::document::{Document, DocumentBlock};
use lnx_store::error::StoreError;
use lnx_store::file_key::FileKey;
use lnx_store::reader::{BlockReadError, BlockStoreReader};
use lnx_store::service::{BlockStoreService, ServiceConfig};
use lnx_store::shard::{RolloverPolicy, WriteLocation};
use lnx_store::writers::{Checkpoint, SegmentPath, SegmentView, SegmentWriter};

/// The files of a disk that lives in memory: path, contents, flushed length.
static DISK: Mutex<Vec<(String, Vec<u8>, usize)>> = Mutex::new(Vec::new());

fn with_file<R>(path: &str, act: impl FnOnce(&mut (String, Vec<u8>, usize)) -> R) -> R {
    let mut disk = DISK.lock().unwrap();
    if !disk.iter().any(|file| file.0 == path) {
        disk.push((path.to_string(), Vec::new(), 0));
    }
    let file = disk.iter_mut().find(|file| file.0 == path).unwrap();
    act(file)
}

/// What a crash leaves of the files below `directory`: what was flushed,
/// followed by `torn`.
fn crash(directory: &str, torn: &[u8]) {
    let mut disk = DISK.lock().unwrap();
    for file in disk.iter_mut().filter(|file| file.0.starts_with(directory)) {
        let flushed = file.2;
        file.1.truncate(flushed);
        file.1.extend_from_slice(torn);
    }
}

fn file_names(directory: &str) -> Vec<String> {
    let disk = DISK.lock().unwrap();
    let mut names: Vec<String> = disk
        .iter()
        .filter(|file| file.0.starts_with(directory))
        .map(|file| file.0[directory.len() + 1..].to_string())
        .collect();
    names.push("lost+found".to_string());
    names
}

fn contents(directory: &str, key: FileKey) -> Vec<u8> {
    with_file(&format!("{}/{}", directory, key.file_name()), |file| file.1.clone())
}

struct DiskWriter {
    path: String,
}

impl SegmentWriter for DiskWriter {
    fn segment(&self) -> SegmentView {
        unreachable!()
    }

    fn path(&self) -> SegmentPath {
        unreachable!()
    }

    fn inv(&self) -> bool {
        unreachable!()
    }

    fn open(path: &str) -> Result<Self, StoreError> {
        with_file(path, |file| file.2 = file.1.len());
        Ok(DiskWriter { path: path.to_string() })
    }

    fn position(&self) -> u64 {
        with_file(&self.path, |file| file.1.len() as u64)
    }

    fn write_all(&mut self, bytes: &[u8]) -> Result<u64, StoreError> {
        with_file(&self.path, |file| {
            let offset = file.1.len() as u64;
            file.1.extend_from_slice(bytes);
            Ok(offset)
        })
    }

    fn flush(&mut self) -> Result<(), StoreError> {
        with_file(&self.path, |file| file.2 = file.1.len());
        Ok(())
    }

    fn truncate(&mut self, len: u64) -> Result<(), StoreError> {
        with_file(&self.path, |file| {
            file.1.truncate(len as usize);
            file.2 = len as usize;
        });
        Ok(())
    }
}

fn block(title: &str, count: u64) -> DocumentBlock {
    let doc = Document::new()
        .with_strings(0, vec![title.to_string()])
        .unwrap()
        .with_u64s(1, vec![count])
        .unwrap();
    DocumentBlock::new(vec!["title".to_string(), "count".to_string()], vec![doc])
}

fn checkpoint_of(location: &WriteLocation) -> Checkpoint {
    Checkpoint {
        writer_id: location.file_key.to_hash(),
        position: location.offset + location.length as u64,
    }
}

fn config(flush_every: usize, max_segment_bytes: u64) -> ServiceConfig {
    ServiceConfig {
        shard_count: 2,
        max_pending: 8,
        flush_every,
        rollover: RolloverPolicy { max_segment_bytes, max_segment_age: u64::MAX },
    }
}

#[test]
fn a_restart_recovers_every_acknowledged_write_and_nothing_else() {
    let directory = "/mem/restart";
    let mut service: BlockStoreService<DiskWriter> =
        BlockStoreService::open(directory, config(2, u64::MAX), &vec![], &[], 100).unwrap();
    let mut checkpoints: Vec<Checkpoint> = Vec::new();
    let mut written: Vec<(WriteLocation, DocumentBlock)> = Vec::new();
    for (shard, title) in [(0, "alpha"), (1, "beta"), (0, "gamma"), (0, "delta")] {
        let stored = block(title, title.len() as u64);
        let location = service.write_block(shard, &stored, 100).unwrap();
        checkpoints.push(checkpoint_of(&location));
        written.push((location, stored));
    }
    // handed over but never acknowledged
    assert_eq!(service.submit(0, b"in flight", 100), Ok(vec![]));
    let end_of_shard_0 = written[3].0.offset + written[3].0.length as u64;
    drop(service);
    crash(directory, b"torn tail");

    let names = file_names(directory);
    let mut service: BlockStoreService<DiskWriter> =
        BlockStoreService::open(directory, config(2, u64::MAX), &names, &checkpoints, 200).unwrap();
    assert_eq!(service.shard(0).file_key(), FileKey { timestamp: 100, shard_id: 0 });
    assert_eq!(service.shard(1).file_key(), FileKey { timestamp: 100, shard_id: 1 });
    assert!(service.shard(0).writer().commit_checkpoint() >= end_of_shard_0);
    assert_eq!(service.shard(0).writer().position(), end_of_shard_0);
    assert_eq!(contents(directory, written[0].0.file_key).len() as u64, end_of_shard_0);

    let reader = BlockStoreReader::from_file_names(&names);
    for (location, stored) in &written {
        let segment = contents(directory, location.file_key);
        assert_eq!(reader.read_block(&segment, *location).as_ref(), Ok(stored));
    }
    let lost = WriteLocation {
        shard_id: 0,
        file_key: written[0].0.file_key,
        offset: end_of_shard_0,
        length: 9,
    };
    let segment = contents(directory, lost.file_key);
    assert_eq!(reader.read(&segment, lost), Err(BlockReadError::CorruptRecord));

    let next = service.write(0, b"after the restart", 200).unwrap();
    assert_eq!(next.offset, end_of_shard_0);
    assert_eq!(next.file_key, written[0].0.file_key);
}

#[test]
fn a_restart_continues_on_the_segment_rolled_over_to() {
    let directory = "/mem/rollover";
    let mut service: BlockStoreService<DiskWriter> =
        BlockStoreService::open(directory, config(1, 64), &vec![], &[], 100).unwrap();
    let mut checkpoints: Vec<Checkpoint> = Vec::new();
    let first = block("first", 1);
    let old = service.write_block(1, &first, 150).unwrap();
    checkpoints.push(checkpoint_of(&old));
    assert_eq!(old.file_key, FileKey { timestamp: 100, shard_id: 1 });
    let second = block("second", 2);
    let new = service.write_block(1, &second, 160).unwrap();
    checkpoints.push(checkpoint_of(&new));
    assert_eq!(new.file_key, FileKey { timestamp: 150, shard_id: 1 });
    assert_eq!(new.offset, 0);
    assert!(new.file_key.timestamp > old.file_key.timestamp);
    drop(service);
    crash(directory, b"");

    let names = file_names(directory);
    let service: BlockStoreService<DiskWriter> =
        BlockStoreService::open(directory, config(1, 64), &names, &checkpoints, 300).unwrap();
    assert_eq!(service.shard(1).file_key(), FileKey { timestamp: 160, shard_id: 1 });
    assert_eq!(service.shard(1).writer().position(), 0);
    let reader = BlockStoreReader::from_file_names(&names);
    assert_eq!(reader.read_block(&contents(directory, old.file_key), old), Ok(first));
    assert_eq!(reader.read_block(&contents(directory, new.file_key), new), Ok(second));
}

#[test]
fn a_segment_that_lost_acknowledged_bytes_stops_the_restart() {
    let directory = "/mem/lost";
    let mut service: BlockStoreService<DiskWriter> =
        BlockStoreService::open(directory, config(1, u64::MAX), &vec![], &[], 100).unwrap();
    let location = service.write_block(0, &block("kept", 4), 100).unwrap();
    let checkpoints = vec![checkpoint_of(&location)];
    drop(service);
    with_file(&format!("{}/{}", directory, location.file_key.file_name()), |file| {
        file.1.truncate(10);
        file.2 = 10;
    });
    let names = file_names(directory);
    let reopened: Result<BlockStoreService<DiskWriter>, StoreError> =
        BlockStoreService::open(directory, config(1, u64::MAX), &names, &checkpoints, 200);
    assert_eq!(reopened.err(), Some(StoreError::CorruptRecord));
}

#[test]
fn a_rollover_stays_in_the_directory_of_the_store() {
    for directory in ["/mem/dir", "/mem/slash/", "relative"] {
        let mut service: BlockStoreService<DiskWriter> =
            BlockStoreService::open(directory, config(1, 1), &vec![], &[], 100).unwrap();
        service.write(0, b"first", 150).unwrap();
        service.write(0, b"second", 160).unwrap();
        let base = directory.trim_end_matches('/');
        let mut paths: Vec<String> = DISK
            .lock()
            .unwrap()
            .iter()
            .filter(|file| file.0.starts_with(directory))
            .map(|file| file.0.clone())
            .collect();
        paths.sort();
        assert_eq!(
            paths,
            vec![
                format!("{}/100-0.blocks", base),
                format!("{}/100-1.blocks", base),
                format!("{}/150-0.blocks", base),
                format!("{}/160-0.blocks", base),
            ]
        );
    }
}
