use lnx_store::codec::{decode, encode};
use lnx_store::document::{Document, DocumentBlock, FieldType, OffsetInfo};
use lnx_store::error::StoreError;
use lnx_store::file_key::FileKey;
use lnx_store::reader::{BlockReadError, BlockStoreReader};
use lnx_store::service::{latest_segment, BlockStoreService, ServiceConfig};
use lnx_store::shard::{successor, RolloverPolicy, StorageShardMailbox, WriteLocation};
use lnx_store::writers::{
    AutoWriter, BlockStoreWriter, Checkpoint, SegmentPath, SegmentView, SegmentWriter, StorageMetastore,
};

const NEVER: RolloverPolicy =
    RolloverPolicy { max_segment_bytes: u64::MAX, max_segment_age: u64::MAX };

fn key(timestamp: u64, shard_id: usize) -> FileKey {
    FileKey { timestamp, shard_id }
}

fn mailbox(file_key: FileKey, max_pending: usize, policy: RolloverPolicy) -> StorageShardMailbox<AutoWriter> {
    StorageShardMailbox::open(file_key, "/tmp/store", StorageMetastore::new(), max_pending, policy)
        .unwrap()
}

fn contents(mailbox: &StorageShardMailbox<AutoWriter>) -> Vec<u8> {
    mailbox.writer().segment_writer().contents().clone()
}

#[test]
fn appends_begin_where_the_one_before_ended() {
    let mut writer = AutoWriter::with_contents("/tmp/store/1-0.blocks", vec![9, 9, 9], usize::MAX);
    assert_eq!(writer.position(), 3);
    assert_eq!(writer.write_all(b"ab"), Ok(3));
    assert_eq!(writer.write_all(b""), Ok(5));
    assert_eq!(writer.write_all(b"cde"), Ok(5));
    assert_eq!(writer.write_all(b"f"), Ok(8));
    assert_eq!(writer.position(), 9);
    assert_eq!(writer.contents(), &b"\x09\x09\x09abcdef".to_vec());
    assert_eq!(writer.flushed_len(), 3);
    assert_eq!(writer.flush(), Ok(()));
    assert_eq!(writer.flushed_len(), 9);
}

#[test]
fn a_full_segment_fails_the_append_and_keeps_what_it_has() {
    let mut writer = AutoWriter::with_contents("/tmp/store/1-0.blocks", vec![], 4);
    assert_eq!(writer.write_all(b"abc"), Ok(0));
    assert_eq!(writer.write_all(b"de"), Err(StoreError::IoError));
    assert_eq!(writer.contents(), &b"abc".to_vec());
    assert_eq!(writer.write_all(b"d"), Ok(3));
    assert_eq!(writer.truncate(1), Ok(()));
    assert_eq!(writer.contents(), &b"a".to_vec());
    assert_eq!(writer.flushed_len(), 1);
}

#[test]
fn the_metastore_keeps_one_checkpoint_per_writer() {
    let mut metastore = StorageMetastore::new();
    assert_eq!(metastore.get_checkpoint(1), None);
    assert_eq!(metastore.set_checkpoint(1, 10), Ok(()));
    assert_eq!(metastore.set_checkpoint(2, 20), Ok(()));
    assert_eq!(metastore.set_checkpoint(1, 30), Ok(()));
    assert_eq!(metastore.get_checkpoint(1), Some(30));
    assert_eq!(metastore.get_checkpoint(2), Some(20));
    assert_eq!(metastore.get_checkpoint(3), None);
    let metastore = StorageMetastore::from_checkpoints(&[
        Checkpoint { writer_id: 7, position: 1 },
        Checkpoint { writer_id: 8, position: 2 },
        Checkpoint { writer_id: 7, position: 3 },
    ]);
    assert_eq!(metastore.get_checkpoint(7), Some(3));
    assert_eq!(metastore.get_checkpoint(8), Some(2));
}

#[test]
fn a_checkpoint_vouches_for_flushed_bytes_only() {
    let mut writer: BlockStoreWriter<AutoWriter> =
        BlockStoreWriter::open("/tmp/store/1-0.blocks", StorageMetastore::new(), 77).unwrap();
    assert_eq!(writer.writer_id(), 77);
    assert_eq!(writer.write_all(b"hello"), Ok(0));
    assert_eq!(writer.position(), 5);
    assert_eq!(writer.flushed_position(), 0);
    assert_eq!(writer.set_commit_checkpoint(5), Err(StoreError::NotDurable));
    assert_eq!(writer.commit_checkpoint(), 0);
    assert_eq!(writer.flush(), Ok(()));
    assert_eq!(writer.set_commit_checkpoint(5), Ok(()));
    assert_eq!(writer.commit_checkpoint(), 5);
    assert_eq!(writer.set_commit_checkpoint(6), Err(StoreError::NotDurable));
    assert_eq!(writer.set_commit_checkpoint(3), Ok(()));
    assert_eq!(writer.commit_checkpoint(), 3);
}

#[test]
fn writes_to_one_shard_lie_end_to_end_in_order() {
    let mut mailbox = mailbox(key(100, 4), 16, NEVER);
    let records: Vec<&[u8]> = vec![b"first", b"", b"second!", b"3"];
    let mut appended = Vec::new();
    for record in &records {
        appended.push(mailbox.append(record).unwrap());
    }
    assert_eq!(mailbox.pending(), 4);
    let acknowledged = mailbox.commit(100).unwrap();
    assert_eq!(acknowledged, appended);
    assert_eq!(mailbox.pending(), 0);
    let offsets: Vec<u64> = acknowledged.iter().map(|l| l.offset).collect();
    assert_eq!(offsets, vec![0, 5, 5, 12]);
    for pair in acknowledged.windows(2) {
        assert_eq!(pair[1].offset, pair[0].offset + pair[0].length as u64);
    }
    for (location, record) in acknowledged.iter().zip(&records) {
        assert_eq!(location.shard_id, 4);
        assert_eq!(location.file_key, key(100, 4));
        assert_eq!(location.length as usize, record.len());
    }
    let next = mailbox.write(b"later", 100).unwrap();
    assert_eq!(next.offset, 13);
    assert_eq!(next.length, 5);
}

#[test]
fn a_write_is_flushed_and_checkpointed_when_it_returns() {
    let mut mailbox = mailbox(key(100, 0), 16, NEVER);
    let location = mailbox.write(b"durable", 100).unwrap();
    assert_eq!(location, WriteLocation { shard_id: 0, file_key: key(100, 0), offset: 0, length: 7 });
    let writer = mailbox.writer();
    assert_eq!(writer.writer_id(), key(100, 0).to_hash());
    assert_eq!(writer.flushed_position(), 7);
    assert_eq!(writer.commit_checkpoint(), 7);
    assert_eq!(writer.segment_writer().flushed_len(), 7);
}

#[test]
fn an_append_is_not_durable_before_the_commit() {
    let mut mailbox = mailbox(key(100, 0), 16, NEVER);
    mailbox.write(b"one", 100).unwrap();
    mailbox.append(b"two").unwrap();
    assert_eq!(mailbox.writer().position(), 6);
    assert_eq!(mailbox.writer().flushed_position(), 3);
    assert_eq!(mailbox.writer().commit_checkpoint(), 3);
    mailbox.commit(100).unwrap();
    assert_eq!(mailbox.writer().commit_checkpoint(), 6);
}

#[test]
fn a_full_batch_refuses_more() {
    let mut mailbox = mailbox(key(100, 0), 2, NEVER);
    assert!(mailbox.append(b"a").is_ok());
    assert!(mailbox.append(b"b").is_ok());
    assert_eq!(mailbox.append(b"c"), Err(StoreError::QueueFull));
    assert_eq!(mailbox.write(b"c", 100), Err(StoreError::QueueFull));
    assert!(!mailbox.is_degraded());
    assert_eq!(contents(&mailbox), b"ab".to_vec());
    assert_eq!(mailbox.commit(100).unwrap().len(), 2);
    assert!(mailbox.append(b"c").is_ok());
    let mut none = self::mailbox(key(100, 0), 0, NEVER);
    assert_eq!(none.write(b"x", 100), Err(StoreError::QueueFull));
}

fn small_mailbox(capacity: usize) -> StorageShardMailbox<AutoWriter> {
    let file_key = key(100, 0);
    let writer = BlockStoreWriter::recover(
        AutoWriter::with_contents("/tmp/store/100-0.blocks", vec![], capacity),
        StorageMetastore::new(),
        file_key.to_hash(),
    )
    .unwrap();
    StorageShardMailbox::new(0, file_key, "/tmp/store", writer, 16, NEVER)
}

#[test]
fn a_failed_append_degrades_the_shard_and_fails_the_batch() {
    let mut mailbox = small_mailbox(8);
    mailbox.write(b"1234", 100).unwrap();
    mailbox.append(b"56").unwrap();
    assert_eq!(mailbox.append(b"789"), Err(StoreError::IoError));
    assert!(mailbox.is_degraded());
    assert_eq!(mailbox.append(b"7"), Err(StoreError::IoError));
    assert_eq!(mailbox.commit(100), Err(StoreError::IoError));
    assert_eq!(mailbox.pending(), 0);
    assert_eq!(mailbox.write(b"7", 100), Err(StoreError::IoError));
    // what was acknowledged before stays vouched for
    assert_eq!(mailbox.writer().commit_checkpoint(), 4);
    assert_eq!(&contents(&mailbox)[..4], b"1234");
}

struct FlakyWriter {
    data: Vec<u8>,
    flushed: usize,
    flushes_left: usize,
}

impl SegmentWriter for FlakyWriter {
    fn segment(&self) -> SegmentView {
        unreachable!()
    }

    fn path(&self) -> SegmentPath {
        unreachable!()
    }

    fn inv(&self) -> bool {
        unreachable!()
    }

    fn open(_path: &str) -> Result<Self, StoreError> {
        Ok(FlakyWriter { data: vec![], flushed: 0, flushes_left: 1 })
    }

    fn position(&self) -> u64 {
        self.data.len() as u64
    }

    fn write_all(&mut self, bytes: &[u8]) -> Result<u64, StoreError> {
        let offset = self.data.len() as u64;
        self.data.extend_from_slice(bytes);
        Ok(offset)
    }

    fn flush(&mut self) -> Result<(), StoreError> {
        if self.flushes_left == 0 {
            return Err(StoreError::IoError);
        }
        self.flushes_left -= 1;
        self.flushed = self.data.len();
        Ok(())
    }

    fn truncate(&mut self, len: u64) -> Result<(), StoreError> {
        self.data.truncate(len as usize);
        self.flushed = len as usize;
        Ok(())
    }
}

#[test]
fn a_failed_flush_fails_the_whole_batch_and_degrades_the_shard() {
    let mut mailbox: StorageShardMailbox<FlakyWriter> =
        StorageShardMailbox::open(key(100, 0), "/tmp/store", StorageMetastore::new(), 16, NEVER)
            .unwrap();
    assert_eq!(mailbox.write(b"kept", 100).unwrap().offset, 0);
    mailbox.append(b"lost").unwrap();
    mailbox.append(b"too").unwrap();
    assert_eq!(mailbox.commit(100), Err(StoreError::IoError));
    assert!(mailbox.is_degraded());
    assert_eq!(mailbox.pending(), 0);
    assert_eq!(mailbox.writer().commit_checkpoint(), 4);
    assert_eq!(mailbox.writer().segment_writer().flushed, 4);
    assert_eq!(mailbox.write(b"more", 100), Err(StoreError::IoError));
}

#[test]
fn records_read_back_as_written() {
    let mut mailbox = mailbox(key(100, 2), 16, NEVER);
    let records: Vec<&[u8]> = vec![b"alpha", b"", b"beta", b"gamma delta"];
    let locations: Vec<WriteLocation> =
        records.iter().map(|record| mailbox.write(record, 100).unwrap()).collect();
    let segment = contents(&mailbox);
    let reader = BlockStoreReader::new(vec![key(100, 2)]);
    for (location, record) in locations.iter().zip(&records) {
        assert_eq!(reader.read(&segment, *location), Ok(record.to_vec()));
    }
}

#[test]
fn reads_fail_for_unknown_segments_and_overlong_locations() {
    let reader = BlockStoreReader::new(vec![key(100, 2), key(200, 2)]);
    let segment = b"0123456789".to_vec();
    let at = |file_key, offset, length| WriteLocation { shard_id: 2, file_key, offset, length };
    assert_eq!(reader.read(&segment, at(key(100, 2), 2, 3)), Ok(b"234".to_vec()));
    assert_eq!(reader.read(&segment, at(key(200, 2), 0, 10)), Ok(segment.clone()));
    assert_eq!(reader.read(&segment, at(key(200, 2), 10, 0)), Ok(vec![]));
    assert_eq!(reader.read(&segment, at(key(300, 2), 2, 3)), Err(BlockReadError::NotFound));
    assert_eq!(reader.read(&segment, at(key(100, 1), 2, 3)), Err(BlockReadError::NotFound));
    assert_eq!(reader.read(&segment, at(key(100, 2), 8, 3)), Err(BlockReadError::CorruptRecord));
    assert_eq!(reader.read(&segment, at(key(100, 2), 11, 0)), Err(BlockReadError::CorruptRecord));
    assert_eq!(
        reader.read(&segment, at(key(100, 2), u64::MAX, u32::MAX)),
        Err(BlockReadError::CorruptRecord)
    );
    assert_eq!(reader.read_block(&segment, at(key(100, 2), 2, 3)).err(), Some(BlockReadError::CorruptRecord));
    assert_eq!(reader.read_block(&segment, at(key(300, 2), 2, 3)).err(), Some(BlockReadError::NotFound));
    assert_eq!(reader.locate(at(key(200, 2), 0, 0)), Ok("200-2.blocks".to_string()));
    assert_eq!(reader.locate(at(key(300, 2), 0, 0)), Err(BlockReadError::NotFound));
    assert!(reader.knows(key(100, 2)));
    assert!(!reader.knows(key(100, 3)));
}

#[test]
fn a_reader_knows_the_segments_among_the_files_of_a_directory() {
    let names: Vec<String> =
        ["100-2.blocks", "notes.txt", "200-0.blocks", "x-1.blocks", "300-2.blocks.tmp", "+4-+5.blocks"]
            .iter()
            .map(|s| s.to_string())
            .collect();
    let reader = BlockStoreReader::from_file_names(&names);
    assert!(reader.knows(key(100, 2)));
    assert!(reader.knows(key(200, 0)));
    assert!(reader.knows(key(4, 5)));
    assert!(!reader.knows(key(300, 2)));
}

#[test]
fn recovery_restores_what_the_checkpoint_vouches_for() {
    let file_key = key(100, 0);
    let mut mailbox = mailbox(file_key, 16, NEVER);
    let first = mailbox.write(b"acknowledged", 100).unwrap();
    let second = mailbox.write(b"also acknowledged", 100).unwrap();
    mailbox.append(b"never flushed").unwrap();
    let checkpoint = mailbox.writer().commit_checkpoint();
    assert_eq!(checkpoint, second.offset + second.length as u64);

    // the crash: the flushed part survives, followed by a torn tail
    let mut file = contents(&mailbox)[..mailbox.writer().flushed_position() as usize].to_vec();
    file.extend_from_slice(b"never fl");
    let metastore = StorageMetastore::from_checkpoints(&[Checkpoint {
        writer_id: file_key.to_hash(),
        position: checkpoint,
    }]);
    let recovered = BlockStoreWriter::recover(
        AutoWriter::with_contents("/tmp/store/100-0.blocks", file, usize::MAX),
        metastore,
        file_key.to_hash(),
    )
    .unwrap();
    assert!(recovered.commit_checkpoint() >= second.offset + second.length as u64);
    assert_eq!(recovered.position(), checkpoint);
    let segment = recovered.segment_writer().contents().clone();
    assert_eq!(segment, b"acknowledgedalso acknowledged".to_vec());
    let reader = BlockStoreReader::new(vec![file_key]);
    assert_eq!(reader.read(&segment, first), Ok(b"acknowledged".to_vec()));
    assert_eq!(reader.read(&segment, second), Ok(b"also acknowledged".to_vec()));
    let torn = WriteLocation { shard_id: 0, file_key, offset: checkpoint, length: 8 };
    assert_eq!(reader.read(&segment, torn), Err(BlockReadError::CorruptRecord));

    // writing goes on where the checkpoint stands
    let mut mailbox = StorageShardMailbox::new(0, file_key, "/tmp/store", recovered, 16, NEVER);
    assert_eq!(mailbox.write(b"next", 101).unwrap().offset, checkpoint);
}

#[test]
fn a_segment_shorter_than_its_checkpoint_is_corrupt() {
    let metastore = StorageMetastore::from_checkpoints(&[Checkpoint { writer_id: 5, position: 10 }]);
    let short = AutoWriter::with_contents("/tmp/store/5.blocks", b"123456789".to_vec(), usize::MAX);
    assert_eq!(
        BlockStoreWriter::recover(short, metastore, 5).err(),
        Some(StoreError::CorruptRecord)
    );
    let metastore = StorageMetastore::from_checkpoints(&[Checkpoint { writer_id: 5, position: 10 }]);
    let exact = AutoWriter::with_contents("/tmp/store/5.blocks", b"1234567890".to_vec(), usize::MAX);
    assert_eq!(BlockStoreWriter::recover(exact, metastore, 5).unwrap().position(), 10);
    // without a checkpoint nothing is vouched for
    let unknown = AutoWriter::with_contents("/tmp/store/5.blocks", b"1234567890".to_vec(), usize::MAX);
    let writer = BlockStoreWriter::recover(unknown, StorageMetastore::new(), 5).unwrap();
    assert_eq!(writer.position(), 0);
    assert_eq!(writer.segment_writer().contents(), &Vec::<u8>::new());
}

#[test]
fn a_segment_that_is_due_is_replaced_by_a_newer_one() {
    let policy = RolloverPolicy { max_segment_bytes: 10, max_segment_age: u64::MAX };
    let old_key = key(100, 1);
    let mut mailbox = mailbox(old_key, 16, policy);
    let first = mailbox.write(b"12345", 100).unwrap();
    assert_eq!(mailbox.file_key(), old_key);
    let second = mailbox.append(b"67890").unwrap();
    let old_segment = contents(&mailbox);
    assert_eq!(mailbox.commit(250).unwrap(), vec![second]);
    let new_key = mailbox.file_key();
    assert_eq!(new_key, key(250, 1));
    assert!(new_key.timestamp > old_key.timestamp);
    assert!(!mailbox.is_degraded());

    let third = mailbox.write(b"abc", 250).unwrap();
    assert_eq!(third, WriteLocation { shard_id: 1, file_key: new_key, offset: 0, length: 3 });
    assert_eq!(mailbox.writer().writer_id(), new_key.to_hash());
    assert_eq!(mailbox.writer().commit_checkpoint(), 3);

    let reader = BlockStoreReader::new(vec![old_key, new_key]);
    assert_eq!(reader.read(&old_segment, first), Ok(b"12345".to_vec()));
    assert_eq!(reader.read(&old_segment, second), Ok(b"67890".to_vec()));
    assert_eq!(reader.read(&contents(&mailbox), third), Ok(b"abc".to_vec()));
}

#[test]
fn an_old_segment_is_replaced_even_when_small() {
    let policy = RolloverPolicy { max_segment_bytes: u64::MAX, max_segment_age: 60 };
    let mut mailbox = mailbox(key(100, 0), 16, policy);
    mailbox.write(b"a", 159).unwrap();
    assert_eq!(mailbox.file_key(), key(100, 0));
    mailbox.write(b"b", 160).unwrap();
    assert_eq!(mailbox.file_key(), key(160, 0));
    // a clock that runs backwards does not age a segment
    mailbox.write(b"c", 10).unwrap();
    assert_eq!(mailbox.file_key(), key(160, 0));
}

#[test]
fn the_successor_of_a_segment_is_newer() {
    assert_eq!(successor(key(100, 3), 250), Some(key(250, 3)));
    assert_eq!(successor(key(100, 3), 100), Some(key(101, 3)));
    assert_eq!(successor(key(100, 3), 7), Some(key(101, 3)));
    assert_eq!(successor(key(u64::MAX, 3), 7), None);
    assert_eq!(successor(key(u64::MAX - 1, 3), u64::MAX), Some(key(u64::MAX, 3)));
    let policy = RolloverPolicy { max_segment_bytes: 10, max_segment_age: 60 };
    assert!(!policy.due(100, 9, 159));
    assert!(policy.due(100, 10, 100));
    assert!(policy.due(100, 0, 160));
    assert!(!policy.due(100, 0, 0));
}

fn config(shard_count: usize) -> ServiceConfig {
    ServiceConfig { shard_count, max_pending: 16, flush_every: 1, rollover: NEVER }
}

#[test]
fn a_block_written_to_the_store_reads_back() {
    let mut service: BlockStoreService<AutoWriter> =
        BlockStoreService::open("/tmp/store", config(2), &vec![], &[], 1700000000).unwrap();
    let doc = Document::new()
        .with_strings(0, vec!["hello".to_string()])
        .unwrap()
        .with_u64s(1, vec![42])
        .unwrap();
    let block = DocumentBlock::new(vec!["title".to_string(), "count".to_string()], vec![doc]);
    let length = encode(&block).unwrap().len();
    let location = service.write_block(0, &block, 1700000000).unwrap();
    assert_eq!(
        location,
        WriteLocation {
            shard_id: 0,
            file_key: key(1700000000, 0),
            offset: 0,
            length: length as u32,
        }
    );
    let segment = service.shard(0).writer().segment_writer().contents().clone();
    let reader = BlockStoreReader::new(vec![location.file_key]);
    let read = reader.read_block(&segment, location).unwrap();
    assert_eq!(read, block);
    let doc = &read.docs()[0];
    assert_eq!(
        doc.info(),
        &vec![
            OffsetInfo { field_id: 0, field_length: 1, field_type: FieldType::String },
            OffsetInfo { field_id: 1, field_length: 1, field_type: FieldType::U64 },
        ]
    );
    assert_eq!(doc.strings(), &vec!["hello".to_string()]);
    assert_eq!(doc.u64s(), &vec![42]);
    assert_eq!(decode(&reader.read(&segment, location).unwrap()).unwrap(), block);
}

#[test]
fn a_block_with_an_unknown_field_is_refused_before_anything_is_written() {
    let mut service: BlockStoreService<AutoWriter> =
        BlockStoreService::open("/tmp/store", config(1), &vec![], &[], 5).unwrap();
    let block = DocumentBlock::new(vec![], vec![Document::new().with_null(0)]);
    assert_eq!(service.write_block(0, &block, 5), Err(StoreError::SchemaMismatch));
    assert_eq!(service.shard(0).writer().position(), 0);
}

#[test]
fn the_hint_selects_the_shard() {
    let mut service: BlockStoreService<AutoWriter> =
        BlockStoreService::open("/tmp/store", config(3), &vec![], &[], 5).unwrap();
    assert_eq!(service.shard_count(), 3);
    assert_eq!(service.write(1, b"one", 5).unwrap().shard_id, 1);
    assert_eq!(service.write(4, b"four", 5).unwrap().shard_id, 1);
    assert_eq!(service.write(2, b"two", 5).unwrap().shard_id, 2);
    assert_eq!(service.write(4, b"x", 5).unwrap().offset, 7);
    assert_eq!(service.shard(0).writer().position(), 0);
    assert_eq!(service.shard(1).writer().position(), 8);
    assert_eq!(service.shard(2).writer().position(), 3);
    let mut none: BlockStoreService<AutoWriter> =
        BlockStoreService::open("/tmp/store", config(0), &vec![], &[], 5).unwrap();
    assert_eq!(none.write(0, b"x", 5), Err(StoreError::NotFound));
}

#[test]
fn a_key_always_goes_to_the_same_shard() {
    let service: BlockStoreService<AutoWriter> =
        BlockStoreService::open("/tmp/store", config(4), &vec![], &[], 5).unwrap();
    for key in [&b"index-a"[..], b"index-b", b"", b"another index"] {
        let shard = service.shard_for(key);
        assert!(shard < 4);
        assert_eq!(service.shard_for(key), shard);
        assert_eq!(shard as u64, lnx_store::file_key::hash_of(key) % 4);
    }
    assert_eq!(service.shard_for(b"a"), (0xaf63dc4c8601ec8cu64 % 4) as usize);
}

#[test]
fn the_store_continues_on_the_most_recent_segment_of_each_shard() {
    let names: Vec<String> = [
        "100-0.blocks",
        "300-0.blocks",
        "200-0.blocks",
        "400-1.blocks.tmp",
        "garbage",
        "-0.blocks",
        "50-2.blocks",
    ]
    .iter()
    .map(|s| s.to_string())
    .collect();
    assert_eq!(latest_segment(&names, 0), Some(key(300, 0)));
    assert_eq!(latest_segment(&names, 1), None);
    assert_eq!(latest_segment(&names, 2), Some(key(50, 2)));
    let service: BlockStoreService<AutoWriter> =
        BlockStoreService::open("/tmp/store", config(3), &names, &[], 999).unwrap();
    assert_eq!(service.shard(0).file_key(), key(300, 0));
    assert_eq!(service.shard(1).file_key(), key(999, 1));
    assert_eq!(service.shard(2).file_key(), key(50, 2));
}

#[test]
fn shutdown_acknowledges_what_is_pending() {
    let mut service: BlockStoreService<AutoWriter> =
        BlockStoreService::open("/tmp/store", config(2), &vec![], &[], 5).unwrap();
    service.write(0, b"done", 5).unwrap();
    let outcomes = service.shutdown(6);
    assert_eq!(outcomes, vec![Ok(vec![]), Ok(vec![])]);
}

#[test]
fn a_batch_is_committed_once_it_is_full() {
    let grouped = ServiceConfig { shard_count: 1, max_pending: 16, flush_every: 3, rollover: NEVER };
    let mut service: BlockStoreService<AutoWriter> =
        BlockStoreService::open("/tmp/store", grouped, &vec![], &[], 5).unwrap();
    assert_eq!(service.submit(0, b"one", 5), Ok(vec![]));
    assert_eq!(service.submit(0, b"two!", 5), Ok(vec![]));
    assert_eq!(service.shard(0).pending(), 2);
    assert_eq!(service.shard(0).writer().commit_checkpoint(), 0);
    let acknowledged = service.submit(0, b"three", 5).unwrap();
    let at = |offset, length| WriteLocation { shard_id: 0, file_key: key(5, 0), offset, length };
    assert_eq!(acknowledged, vec![at(0, 3), at(3, 4), at(7, 5)]);
    assert_eq!(service.shard(0).pending(), 0);
    assert_eq!(service.shard(0).writer().commit_checkpoint(), 12);

    assert_eq!(service.submit(0, b"four", 5), Ok(vec![]));
    assert_eq!(service.flush(0, 5), Ok(vec![at(12, 4)]));
    assert_eq!(service.flush(0, 5), Ok(vec![]));
    assert_eq!(service.flush(1, 5), Err(StoreError::NotFound));
    assert_eq!(service.submit(0, b"five", 5), Ok(vec![]));
    assert_eq!(service.shutdown(6), vec![Ok(vec![at(16, 4)])]);
}

#[test]
fn every_record_is_committed_on_its_own_when_batches_hold_one() {
    let mut mailbox = mailbox(key(9, 0), 16, NEVER);
    assert_eq!(mailbox.submit(b"a", 1, 9).unwrap().len(), 1);
    assert_eq!(mailbox.submit(b"b", 0, 9).unwrap().len(), 1);
    assert_eq!(mailbox.submit(b"c", 2, 9).unwrap().len(), 0);
    assert_eq!(mailbox.submit(b"d", 2, 9).unwrap().len(), 2);
    assert_eq!(mailbox.writer().commit_checkpoint(), 4);
}

#[test]
fn a_store_finds_its_checkpoints_again() {
    let file_key = key(100, 0);
    let names = vec![file_key.file_name()];
    let records = [Checkpoint { writer_id: file_key.to_hash(), position: 0 }];
    let service: BlockStoreService<AutoWriter> =
        BlockStoreService::open("/tmp/store", config(1), &names, &records, 500).unwrap();
    assert_eq!(service.shard(0).file_key(), file_key);
    assert_eq!(service.shard(0).writer().commit_checkpoint(), 0);
    // an in-memory segment starts empty, so a checkpoint beyond it is lost data
    let records = [Checkpoint { writer_id: file_key.to_hash(), position: 7 }];
    let failed: Result<BlockStoreService<AutoWriter>, StoreError> =
        BlockStoreService::open("/tmp/store", config(1), &names, &records, 500);
    assert_eq!(failed.err(), Some(StoreError::CorruptRecord));
}

#[test]
fn a_full_batch_or_an_oversized_record_leaves_the_shard_in_service() {
    let mut mailbox = mailbox(key(100, 0), 1, NEVER);
    mailbox.append(b"held").unwrap();
    let before = contents(&mailbox);
    assert_eq!(mailbox.write(b"more", 100), Err(StoreError::QueueFull));
    assert_eq!(mailbox.submit(b"more", 1, 100), Err(StoreError::QueueFull));
    assert!(!mailbox.is_degraded());
    assert_eq!(mailbox.pending(), 1);
    assert_eq!(contents(&mailbox), before);
    assert_eq!(mailbox.commit(100).unwrap().len(), 1);
    assert_eq!(mailbox.write(b"more", 100).unwrap().offset, 4);
}

#[test]
fn a_store_without_shards_opens_and_refuses_every_write() {
    let mut none: BlockStoreService<FlakyWriter> =
        BlockStoreService::open("/tmp/store", config(0), &vec![], &[], 5).unwrap();
    assert_eq!(none.shard_count(), 0);
    assert_eq!(none.write(7, b"x", 5), Err(StoreError::NotFound));
    assert_eq!(none.submit(7, b"x", 5), Err(StoreError::NotFound));
    assert_eq!(none.flush(0, 5), Err(StoreError::NotFound));
    assert_eq!(none.shutdown(5), vec![]);
}

#[test]
fn every_shard_gets_the_checkpoints_found() {
    let file_key = key(100, 1);
    let names = vec![file_key.file_name()];
    let records = [
        Checkpoint { writer_id: 1, position: 11 },
        Checkpoint { writer_id: file_key.to_hash(), position: 0 },
        Checkpoint { writer_id: 1, position: 12 },
    ];
    let service: BlockStoreService<AutoWriter> =
        BlockStoreService::open("/tmp/store", config(2), &names, &records, 500).unwrap();
    for shard in 0..2 {
        let writer = service.shard(shard).writer();
        assert_eq!(writer.commit_checkpoint(), 0);
        assert_eq!(writer.position(), 0);
    }
    assert_eq!(service.shard(0).file_key(), key(500, 0));
    assert_eq!(service.shard(1).file_key(), file_key);
}
