//! The block store service: the shards of a store, recovery at startup,
//! and the routing of writes to shards.

use crate::codec::{decode_spec, encode, encode_spec};
use crate::document::{texts, DocumentBlock};
use crate::error::StoreError;
use crate::file_key::{fnv1a, hash_of, parse_segment_name, segment_path_spec, FileKey};
use crate::shard::{record_at, RolloverPolicy, StorageShardMailbox, WriteLocation};
use crate::writers::{checkpoints_of, Checkpoint, SegmentWriter, StorageMetastore};
use vstd::prelude::*;

verus! {

/// How a store is set up.
#[derive(Clone, Copy, Debug, PartialEq, Eq, Structural)]
pub struct ServiceConfig {
    /// The number of shards.
    pub shard_count: usize,
    /// How many unacknowledged records a shard holds before it refuses
    /// more.
    pub max_pending: usize,
    /// After how many appended records `submit` commits the batch; `1`
    /// commits every record on its own.
    pub flush_every: usize,
    /// When a shard replaces its active segment.
    pub rollover: RolloverPolicy,
}

/// Whether `names[i]` is the name of a segment of shard `shard_id`.
pub open spec fn names_segment_of(names: Seq<Seq<char>>, i: int, shard_id: usize) -> bool {
    parse_segment_name(names[i]) matches Some(key) && key.shard_id == shard_id
}

/// Whether `key` is the most recent segment of shard `shard_id` among the
/// given file names.
pub open spec fn is_latest_segment(names: Seq<Seq<char>>, shard_id: usize, key: FileKey) -> bool {
    &&& key.shard_id == shard_id
    &&& exists|i: int| 0 <= i < names.len() && parse_segment_name(#[trigger] names[i]) == Some(key)
    &&& forall|i: int|
        0 <= i < names.len() && #[trigger] names_segment_of(names, i, shard_id)
            ==> parse_segment_name(names[i])->0.timestamp <= key.timestamp
}

/// The most recent segment of shard `shard_id` among the given file names:
/// the one with the largest timestamp.  Names that are not segment file
/// names are passed over.
pub fn latest_segment(names: &Vec<String>, shard_id: usize) -> (latest: Option<FileKey>)
    ensures
        match latest {
            Some(key) => is_latest_segment(texts(names@), shard_id, key),
            None => forall|i: int|
                0 <= i < names@.len() ==> !#[trigger] names_segment_of(texts(names@), i, shard_id),
        },
{
    let ghost all = texts(names@);
    let mut latest: Option<FileKey> = None;
    let mut i: usize = 0;
    while i < names.len()
        invariant
            i <= names.len(),
            all == texts(names@),
            match latest {
                Some(key) => {
                    &&& key.shard_id == shard_id
                    &&& exists|k: int| 0 <= k < i && parse_segment_name(#[trigger] all[k]) == Some(key)
                    &&& forall|k: int|
                        0 <= k < i && #[trigger] names_segment_of(all, k, shard_id)
                            ==> parse_segment_name(all[k])->0.timestamp <= key.timestamp
                },
                None => forall|k: int| 0 <= k < i ==> !#[trigger] names_segment_of(all, k, shard_id),
            },
        decreases names.len() - i,
    {
        assert(all[i as int] == names@[i as int]@);
        match FileKey::from_file_name(names[i].as_str()) {
            Ok(key) => {
                if key.shard_id == shard_id {
                    let newer = match latest {
                        Some(best) => key.timestamp > best.timestamp,
                        None => true,
                    };
                    if newer {
                        latest = Some(key);
                    }
                }
            },
            Err(_) => {},
        }
        i += 1;
    }
    latest
}

/// Whether `key` is the segment that shard `shard_id` opens on, given the
/// file names found and the time: its most recent segment among the names,
/// or, where the names hold none of the shard's, a first one created at
/// `now`.
pub open spec fn opens_on(names: Seq<Seq<char>>, shard_id: usize, now: u64, key: FileKey) -> bool {
    if exists|k: int| 0 <= k < names.len() && #[trigger] names_segment_of(names, k, shard_id) {
        is_latest_segment(names, shard_id, key)
    } else {
        key == (FileKey { timestamp: now, shard_id })
    }
}

/// The shard a partition key is routed to among `shard_count` shards: its
/// hash modulo the number of shards.
pub open spec fn shard_of(key: Seq<u8>, shard_count: usize) -> usize {
    if shard_count == 0 {
        0
    } else {
        (fnv1a(key) as nat % shard_count as nat) as usize
    }
}

/// The shards of a store.
pub struct BlockStoreService<W: SegmentWriter> {
    config: ServiceConfig,
    shards: Vec<StorageShardMailbox<W>>,
}

impl<W: SegmentWriter> BlockStoreService<W> {
    /// How the store is set up.
    pub closed spec fn config(&self) -> ServiceConfig {
        self.config
    }

    /// The shard mailboxes, by shard id.
    pub closed spec fn shards(&self) -> Seq<StorageShardMailbox<W>> {
        self.shards@
    }

    /// Every shard is in order and sits at the index that is its id.
    pub open spec fn inv(&self) -> bool {
        &&& self.shards().len() == self.config().shard_count
        &&& forall|i: int|
            0 <= i < self.shards().len() ==> {
                &&& (#[trigger] self.shards()[i]).inv()
                &&& self.shards()[i].shard() == i
                &&& self.shards()[i].max_pending() == self.config().max_pending
                &&& self.shards()[i].policy() == self.config().rollover
            }
    }

    /// The shard that a hint selects: the hint modulo the number of shards.
    pub open spec fn target(self, shard_hint: usize) -> int {
        (shard_hint % self.config().shard_count) as int
    }

    /// Nothing but shard `target` has changed.
    pub open spec fn only_shard_changed(before: Self, after: Self, target: int) -> bool {
        &&& after.config() == before.config()
        &&& after.shards() == before.shards().update(target, after.shards()[target])
    }

    /// Nothing has changed.
    pub open spec fn unchanged(before: Self, after: Self) -> bool {
        &&& after.config() == before.config()
        &&& after.shards() == before.shards()
    }

    /// What `write` does: in a store without shards it fails with
    /// `NotFound` and nothing changes; otherwise the shard that the hint
    /// selects writes the record as its mailbox does, and no other shard
    /// changes.
    pub open spec fn write_outcome(
        before: Self,
        after: Self,
        shard_hint: usize,
        bytes: Seq<u8>,
        now: u64,
        result: Result<WriteLocation, StoreError>,
    ) -> bool {
        if before.config().shard_count == 0 {
            result == Err::<WriteLocation, StoreError>(StoreError::NotFound) && Self::unchanged(
                before,
                after,
            )
        } else {
            let target = before.target(shard_hint);
            &&& Self::only_shard_changed(before, after, target)
            &&& StorageShardMailbox::write_outcome(
                before.shards()[target],
                after.shards()[target],
                bytes,
                now,
                result,
            )
        }
    }

    /// What `submit` does: in a store without shards it fails with
    /// `NotFound` and nothing changes; otherwise the shard that the hint
    /// selects takes the record as its mailbox does, with the store's
    /// `flush_every`, and no other shard changes.
    pub open spec fn submit_outcome(
        before: Self,
        after: Self,
        shard_hint: usize,
        bytes: Seq<u8>,
        now: u64,
        result: Result<Vec<WriteLocation>, StoreError>,
    ) -> bool {
        if before.config().shard_count == 0 {
            &&& result is Err
            &&& result->Err_0 == StoreError::NotFound
            &&& Self::unchanged(before, after)
        } else {
            let target = before.target(shard_hint);
            &&& Self::only_shard_changed(before, after, target)
            &&& StorageShardMailbox::submit_outcome(
                before.shards()[target],
                after.shards()[target],
                bytes,
                before.config().flush_every,
                now,
                result,
            )
        }
    }

    /// What `flush` does: where there is no shard `shard_id` it fails with
    /// `NotFound` and nothing changes; otherwise that shard commits as its
    /// mailbox does, and no other shard changes.
    pub open spec fn flush_outcome(
        before: Self,
        after: Self,
        shard_id: usize,
        now: u64,
        result: Result<Vec<WriteLocation>, StoreError>,
    ) -> bool {
        if shard_id >= before.config().shard_count {
            &&& result is Err
            &&& result->Err_0 == StoreError::NotFound
            &&& Self::unchanged(before, after)
        } else {
            &&& Self::only_shard_changed(before, after, shard_id as int)
            &&& StorageShardMailbox::commit_outcome(
                before.shards()[shard_id as int],
                after.shards()[shard_id as int],
                now,
                result,
            )
        }
    }

    /// Whether `shard` is shard `shard_id` of a store as `open` leaves it:
    /// in service, with an empty batch, on the segment that the file names
    /// and the time call for, at that segment's path inside the directory,
    /// holding the given checkpoints, with a segment that ends at its
    /// checkpoint, all of it flushed.
    pub open spec fn opened_shard(
        shard: StorageShardMailbox<W>,
        shard_id: usize,
        base_directory: Seq<char>,
        existing: Seq<Seq<char>>,
        checkpoints: Seq<Checkpoint>,
        now: u64,
    ) -> bool {
        &&& !shard.degraded()
        &&& shard.batch().len() == 0
        &&& opens_on(existing, shard_id, now, shard.key())
        &&& shard.directory() == base_directory
        &&& shard.path() == segment_path_spec(base_directory, shard.key())
        &&& shard.checkpoints() == checkpoints_of(checkpoints)
        &&& shard.segment().bytes.len() == shard.checkpoint()
        &&& shard.segment().durable == shard.checkpoint()
    }

    /// Opens a store inside `base_directory`.
    ///
    /// `existing` lists the files found there and `checkpoints` the
    /// checkpoints found in the metastore, of which every shard gets its
    /// own copy.  Each shard continues on its most recent segment among the
    /// files, or starts a first one created at `now`.  Files with other
    /// names are passed over.  Each segment is cut back to its checkpoint,
    /// which alone says what is durable.
    ///
    /// A store without shards always opens.  Otherwise the segment writers
    /// decide: `IoError` where one fails, `CorruptRecord` where a segment is
    /// shorter than its checkpoint.
    pub fn open(
        base_directory: &str,
        config: ServiceConfig,
        existing: &Vec<String>,
        checkpoints: &[Checkpoint],
        now: u64,
    ) -> (result: Result<Self, StoreError>)
        ensures
            config.shard_count == 0 ==> result is Ok,
            match result {
                Ok(service) => {
                    &&& service.inv()
                    &&& service.config() == config
                    &&& forall|i: int|
                        0 <= i < config.shard_count ==> Self::opened_shard(
                            #[trigger] service.shards()[i],
                            i as usize,
                            base_directory@,
                            texts(existing@),
                            checkpoints@,
                            now,
                        )
                },
                Err(e) => e == StoreError::IoError || e == StoreError::CorruptRecord,
            },
    {
        let mut shards: Vec<StorageShardMailbox<W>> = Vec::new();
        let mut shard_id: usize = 0;
        while shard_id < config.shard_count
            invariant
                shard_id <= config.shard_count,
                shards@.len() == shard_id,
                forall|i: int|
                    0 <= i < shard_id ==> {
                        let shard = #[trigger] shards@[i];
                        &&& shard.inv()
                        &&& shard.shard() == i
                        &&& shard.max_pending() == config.max_pending
                        &&& shard.policy() == config.rollover
                        &&& Self::opened_shard(
                            shard,
                            i as usize,
                            base_directory@,
                            texts(existing@),
                            checkpoints@,
                            now,
                        )
                    },
            decreases config.shard_count - shard_id,
        {
            let latest = latest_segment(existing, shard_id);
            let file_key = match latest {
                Some(key) => key,
                None => FileKey { timestamp: now, shard_id },
            };
            proof {
                let names = texts(existing@);
                if latest is Some {
                    let k = choose|k: int|
                        0 <= k < names.len() && parse_segment_name(#[trigger] names[k]) == Some(
                            file_key,
                        );
                    assert(names_segment_of(names, k, shard_id));
                }
                assert(opens_on(names, shard_id, now, file_key));
            }
            let metastore = StorageMetastore::from_checkpoints(checkpoints);
            match StorageShardMailbox::open(
                file_key,
                base_directory,
                metastore,
                config.max_pending,
                config.rollover,
            ) {
                Ok(mailbox) => {
                    shards.push(mailbox);
                },
                Err(e) => {
                    return Err(e);
                },
            }
            shard_id += 1;
        }
        Ok(BlockStoreService { config, shards })
    }

    /// The number of shards.
    pub fn shard_count(&self) -> (count: usize)
        requires
            self.inv(),
        ensures
            count == self.config().shard_count,
    {
        self.shards.len()
    }

    /// The shard that writes under the partition key `key` go to.  The same
    /// key always goes to the same shard, which keeps the writes under one
    /// key in order.
    pub fn shard_for(&self, key: &[u8]) -> (shard_id: usize)
        requires
            self.inv(),
        ensures
            shard_id == shard_of(key@, self.config().shard_count),
            self.config().shard_count > 0 ==> shard_id < self.config().shard_count,
    {
        let count = self.shards.len();
        if count == 0 {
            0
        } else {
            (hash_of(key) % count as u64) as usize
        }
    }

    /// The mailbox of shard `shard_id`.
    pub fn shard(&self, shard_id: usize) -> (mailbox: &StorageShardMailbox<W>)
        requires
            self.inv(),
            shard_id < self.config().shard_count,
        ensures
            *mailbox == self.shards()[shard_id as int],
    {
        &self.shards[shard_id]
    }

    /// Writes one record to the shard that `shard_hint` selects, the shard
    /// `shard_hint` modulo the number of shards, and returns where it lies
    /// once it is flushed and checkpointed.
    ///
    /// Fails as the shard's mailbox does, and with `NotFound` in a store
    /// without shards.  A failed write returns no location.
    pub fn write(&mut self, shard_hint: usize, bytes: &[u8], now: u64) -> (result: Result<
        WriteLocation,
        StoreError,
    >)
        requires
            old(self).inv(),
        ensures
            final(self).inv(),
            Self::write_outcome(*old(self), *final(self), shard_hint, bytes@, now, result),
    {
        let count = self.shards.len();
        if count == 0 {
            return Err(StoreError::NotFound);
        }
        let target = shard_hint % count;
        let result = self.shards[target].write(bytes, now);
        proof {
            assert(self.shards@ =~= old(self).shards@.update(target as int, self.shards@[target as int]));
        }
        result
    }

    /// Hands one record to the shard that `shard_hint` selects and commits
    /// that shard's batch once it holds as many records as the store's
    /// `flush_every` says.  The result lists what was acknowledged: the whole
    /// batch, this record last, or nothing yet.
    pub fn submit(&mut self, shard_hint: usize, bytes: &[u8], now: u64) -> (result: Result<
        Vec<WriteLocation>,
        StoreError,
    >)
        requires
            old(self).inv(),
        ensures
            final(self).inv(),
            Self::submit_outcome(*old(self), *final(self), shard_hint, bytes@, now, result),
    {
        let count = self.shards.len();
        if count == 0 {
            return Err(StoreError::NotFound);
        }
        let target = shard_hint % count;
        let result = self.shards[target].submit(bytes, self.config.flush_every, now);
        proof {
            assert(self.shards@ =~= old(self).shards@.update(target as int, self.shards@[target as int]));
        }
        result
    }

    /// Commits the batch of shard `shard_id` now, whatever its size, and
    /// lists what was acknowledged.  `NotFound` where there is no such
    /// shard.
    pub fn flush(&mut self, shard_id: usize, now: u64) -> (result: Result<
        Vec<WriteLocation>,
        StoreError,
    >)
        requires
            old(self).inv(),
        ensures
            final(self).inv(),
            Self::flush_outcome(*old(self), *final(self), shard_id, now, result),
    {
        if shard_id >= self.shards.len() {
            return Err(StoreError::NotFound);
        }
        let result = self.shards[shard_id].commit(now);
        proof {
            assert(self.shards@ =~= old(self).shards@.update(
                shard_id as int,
                self.shards@[shard_id as int],
            ));
        }
        result
    }

    /// Encodes a block and writes it to the shard that `shard_hint`
    /// selects.
    ///
    /// A block that names an unknown field is refused with `SchemaMismatch`
    /// before anything is written, and only such a block is.  Any other
    /// block is written as `write` writes its encoding, and what is written
    /// decodes to the block.
    pub fn write_block(&mut self, shard_hint: usize, block: &DocumentBlock, now: u64) -> (result:
        Result<WriteLocation, StoreError>)
        requires
            old(self).inv(),
        ensures
            final(self).inv(),
            if block@.ids_in_range() {
                &&& block@.valid()
                &&& Self::write_outcome(
                    *old(self),
                    *final(self),
                    shard_hint,
                    encode_spec(block@),
                    now,
                    result,
                )
                &&& result matches Ok(location) ==> {
                    let after = final(self).shards()[old(self).target(shard_hint)];
                    after.key() == location.file_key ==> decode_spec(
                        record_at(after.segment().bytes, location),
                    ) == Some(block@)
                }
            } else {
                &&& result == Err::<WriteLocation, StoreError>(StoreError::SchemaMismatch)
                &&& Self::unchanged(*old(self), *final(self))
            },
    {
        let bytes = match encode(block) {
            Ok(bytes) => bytes,
            Err(e) => {
                return Err(e);
            },
        };
        self.write(shard_hint, bytes.as_slice(), now)
    }

    /// Acknowledges what every shard still holds in its batch, shard by
    /// shard, and hands back each shard's outcome: the records it
    /// acknowledged, or the error that took the batch.  A degraded shard
    /// acknowledges nothing.
    pub fn shutdown(self, now: u64) -> (outcomes: Vec<Result<Vec<WriteLocation>, StoreError>>)
        requires
            self.inv(),
        ensures
            outcomes@.len() == self.config().shard_count,
            forall|i: int|
                0 <= i < outcomes@.len() ==> match #[trigger] outcomes@[i] {
                    Ok(acknowledged) => !self.shards()[i].degraded() && acknowledged@
                        == self.shards()[i].batch(),
                    Err(e) => e == StoreError::IoError,
                },
    {
        let mut service = self;
        let mut outcomes: Vec<Result<Vec<WriteLocation>, StoreError>> = Vec::new();
        let mut i: usize = 0;
        while i < service.shards.len()
            invariant
                i <= service.shards@.len(),
                service.shards@.len() == self.shards@.len(),
                self.inv(),
                forall|k: int| i <= k < service.shards@.len() ==> service.shards@[k] == self.shards@[k],
                outcomes@.len() == i,
                forall|k: int|
                    0 <= k < i ==> match #[trigger] outcomes@[k] {
                        Ok(acknowledged) => !self.shards()[k].degraded() && acknowledged@
                            == self.shards()[k].batch(),
                        Err(e) => e == StoreError::IoError,
                    },
            decreases service.shards@.len() - i,
        {
            assert(self.shards()[i as int].inv());
            let outcome = service.shards[i].commit(now);
            outcomes.push(outcome);
            i += 1;
        }
        outcomes
    }
}

} // verus!
