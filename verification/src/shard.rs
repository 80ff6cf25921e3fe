//! The shard mailbox: the single point through which one shard's writes
//! pass, in order, into its active segment.

use crate::error::StoreError;
use crate::file_key::{segment_path, segment_path_spec, FileKey};
use crate::writers::{BlockStoreWriter, SegmentView, SegmentWriter, StorageMetastore};
use vstd::prelude::*;

verus! {

/// Where a record lies: the durable handle that is all one needs to read
/// the record back.
#[derive(Clone, Copy, Debug, PartialEq, Eq, Structural)]
pub struct WriteLocation {
    /// The shard that wrote the record.
    pub shard_id: usize,
    /// The segment file that holds it.
    pub file_key: FileKey,
    /// The offset of its first byte in the segment.
    pub offset: u64,
    /// Its length in bytes.
    pub length: u32,
}

impl WriteLocation {
    /// The offset just past the record.
    pub open spec fn end(self) -> nat {
        (self.offset + self.length) as nat
    }
}

/// The bytes of a segment that a location describes.
pub open spec fn record_at(segment: Seq<u8>, location: WriteLocation) -> Seq<u8> {
    segment.subrange(location.offset as int, location.end() as int)
}

/// The offset at which record `i + 1` of a batch begins.
pub open spec fn next_offset(batch: Seq<WriteLocation>, i: int) -> nat {
    batch[i + 1].offset as nat
}

/// Whether the locations lie end to end, from `from` up to `to`: the first
/// begins at `from`, each begins where the one before it ends, and the last
/// ends at `to`.
pub open spec fn contiguous(batch: Seq<WriteLocation>, from: nat, to: nat) -> bool {
    if batch.len() == 0 {
        from == to
    } else {
        &&& batch[0].offset == from
        &&& batch.last().end() == to
        &&& forall|i: int|
            0 <= i < batch.len() - 1 ==> #[trigger] next_offset(batch, i) == batch[i].end()
    }
}

/// A record that lies within the first `n` bytes of a segment reads the
/// same from those `n` bytes alone.
pub proof fn lemma_record_in_prefix(segment: Seq<u8>, n: int, location: WriteLocation)
    requires
        location.end() <= n <= segment.len(),
    ensures
        record_at(segment.take(n), location) == record_at(segment, location),
{
    assert(record_at(segment.take(n), location) =~= record_at(segment, location));
}

/// A record that begins where a batch ends extends the batch.
pub proof fn lemma_contiguous_push(
    batch: Seq<WriteLocation>,
    from: nat,
    to: nat,
    location: WriteLocation,
)
    requires
        contiguous(batch, from, to),
        location.offset == to,
    ensures
        contiguous(batch.push(location), from, location.end()),
{
    let longer = batch.push(location);
    assert forall|i: int| 0 <= i < longer.len() - 1 implies #[trigger] next_offset(longer, i)
        == longer[i].end() by {
        if i < batch.len() - 1 {
            assert(next_offset(batch, i) == batch[i].end());
        }
    }
}

/// **Write ordering.**  The records of a batch lie in the order they were
/// appended, each beginning exactly where the one before it ends; where
/// that one is not empty, strictly after its beginning.
pub proof fn lemma_write_ordering(batch: Seq<WriteLocation>, from: nat, to: nat, i: int)
    requires
        contiguous(batch, from, to),
        0 <= i < batch.len() - 1,
    ensures
        batch[i + 1].offset == batch[i].offset + batch[i].length,
        batch[i].length > 0 ==> batch[i + 1].offset > batch[i].offset,
{
    assert(next_offset(batch, i) == batch[i].end());
}

/// **Read after write.**  A record appended at the end of a segment reads
/// back as the bytes that were written, at once and after any number of
/// later appends.
pub proof fn lemma_read_after_write(
    before: Seq<u8>,
    bytes: Seq<u8>,
    later: Seq<u8>,
    location: WriteLocation,
)
    requires
        location.offset == before.len(),
        location.length == bytes.len(),
    ensures
        record_at(before + bytes, location) == bytes,
        record_at(before + bytes + later, location) == bytes,
{
    assert(record_at(before + bytes, location) =~= bytes);
    assert(record_at(before + bytes + later, location) =~= bytes);
}

/// **Rollover boundary.**  The segment a shard rolls over to has a newer
/// key than the one it leaves, in the same shard.
pub proof fn lemma_rollover_boundary(current: FileKey, now: u64)
    requires
        successor_spec(current, now) is Some,
    ensures
        successor_spec(current, now)->0.timestamp > current.timestamp,
        successor_spec(current, now)->0.shard_id == current.shard_id,
        successor_spec(current, now)->0 != current,
{
}

/// When a shard's active segment is due to be replaced.
#[derive(Clone, Copy, Debug, PartialEq, Eq, Structural)]
pub struct RolloverPolicy {
    /// A segment that has reached this many bytes is replaced.
    pub max_segment_bytes: u64,
    /// A segment that has reached this age in seconds is replaced.
    pub max_segment_age: u64,
}

impl RolloverPolicy {
    /// Whether a segment created at `created` that holds `size` bytes is
    /// due at time `now`.
    pub open spec fn due_spec(self, created: u64, size: u64, now: u64) -> bool {
        size >= self.max_segment_bytes || (now >= created && now - created
            >= self.max_segment_age)
    }

    /// Whether a segment created at `created` that holds `size` bytes is
    /// due at time `now`.
    pub fn due(&self, created: u64, size: u64, now: u64) -> (due: bool)
        ensures
            due == self.due_spec(created, size, now),
    {
        size >= self.max_segment_bytes || (now >= created && now - created
            >= self.max_segment_age)
    }
}

/// The key of the segment that follows `current` when the shard rolls over
/// at time `now`: the present time, or one second after the current
/// segment's creation where the clock has not moved past it.
pub open spec fn successor_spec(current: FileKey, now: u64) -> Option<FileKey> {
    if now > current.timestamp {
        Some(FileKey { timestamp: now, shard_id: current.shard_id })
    } else if current.timestamp < u64::MAX {
        Some(FileKey { timestamp: (current.timestamp + 1) as u64, shard_id: current.shard_id })
    } else {
        None
    }
}

/// The key of the segment that follows `current` when the shard rolls over
/// at time `now`.  There is none once timestamps are used up.
pub fn successor(current: FileKey, now: u64) -> (next: Option<FileKey>)
    ensures
        next == successor_spec(current, now),
        next matches Some(key) ==> key.timestamp > current.timestamp && key.shard_id
            == current.shard_id,
{
    if now > current.timestamp {
        Some(FileKey { timestamp: now, shard_id: current.shard_id })
    } else if current.timestamp < u64::MAX {
        Some(FileKey { timestamp: current.timestamp + 1, shard_id: current.shard_id })
    } else {
        None
    }
}

/// The serialization point of one shard.
///
/// Requests are taken one at a time, in the order they arrive.  Each is
/// appended to the active segment at once and joins the *batch*: the
/// records appended since the last commit.  A commit flushes the segment,
/// records the checkpoint, and so acknowledges the whole batch together.
/// After an I/O failure the mailbox is *degraded* and refuses all work.
pub struct StorageShardMailbox<W: SegmentWriter> {
    shard_id: usize,
    file_key: FileKey,
    base_directory: String,
    writer: BlockStoreWriter<W>,
    batch: Vec<WriteLocation>,
    max_pending: usize,
    policy: RolloverPolicy,
    degraded: bool,
}

impl<W: SegmentWriter> StorageShardMailbox<W> {
    /// The shard's id.
    pub closed spec fn shard(&self) -> usize {
        self.shard_id
    }

    /// The key of the active segment.
    pub closed spec fn key(&self) -> FileKey {
        self.file_key
    }

    /// The directory the shard's segments lie in.
    pub closed spec fn directory(&self) -> Seq<char> {
        self.base_directory@
    }

    /// Where the active segment lies: the path it was opened at.
    pub closed spec fn path(&self) -> Seq<char> {
        self.writer.path()
    }

    /// The active segment.
    pub closed spec fn segment(&self) -> SegmentView {
        self.writer.segment()
    }

    /// The checkpoints in the shard's metastore.
    pub closed spec fn checkpoints(&self) -> Map<u64, u64> {
        self.writer.checkpoints()
    }

    /// The checkpoint of the active segment: what the metastore holds under
    /// the hash of the segment's key, zero while it holds nothing.
    pub open spec fn checkpoint(&self) -> nat {
        if self.checkpoints().contains_key(self.key().hash_spec()) {
            self.checkpoints()[self.key().hash_spec()] as nat
        } else {
            0
        }
    }

    /// The records appended since the last commit, in order.
    pub closed spec fn batch(&self) -> Seq<WriteLocation> {
        self.batch@
    }

    /// How many records a batch may hold.
    pub closed spec fn max_pending(&self) -> usize {
        self.max_pending
    }

    /// When the active segment is replaced.
    pub closed spec fn policy(&self) -> RolloverPolicy {
        self.policy
    }

    /// Whether an I/O failure has put the mailbox out of service.
    pub closed spec fn degraded(&self) -> bool {
        self.degraded
    }

    /// What holds of a mailbox between calls.
    ///
    /// The checkpoint never runs ahead of what was flushed.  While the
    /// mailbox is in service, everything up to the checkpoint is durable
    /// and acknowledged, and the batch covers the rest of the segment,
    /// record after record, in the order of arrival.
    pub closed spec fn inv(&self) -> bool {
        &&& self.writer.inv()
        &&& self.writer.id() == self.file_key.hash_spec()
        &&& self.file_key.shard_id == self.shard_id
        &&& !self.degraded ==> {
            &&& self.writer.checkpoint() == self.writer.segment().durable
            &&& contiguous(
                self.batch@,
                self.writer.checkpoint(),
                self.writer.segment().bytes.len(),
            )
            &&& forall|i: int|
                0 <= i < self.batch@.len() ==> (#[trigger] self.batch@[i]).shard_id
                    == self.shard_id && self.batch@[i].file_key == self.file_key
        }
    }

    /// What the invariant says in public terms.
    pub proof fn lemma_inv(&self)
        requires
            self.inv(),
        ensures
            self.segment().valid(),
            self.checkpoint() <= self.segment().durable,
            self.key().shard_id == self.shard(),
            !self.degraded() ==> {
                &&& self.checkpoint() == self.segment().durable
                &&& contiguous(self.batch(), self.checkpoint(), self.segment().bytes.len())
                &&& forall|i: int|
                    0 <= i < self.batch().len() ==> (#[trigger] self.batch()[i]).shard_id
                        == self.shard() && self.batch()[i].file_key == self.key()
            },
    {
        self.writer.lemma_inv();
    }

    /// What no operation changes: the shard, its directory and its limits.
    pub open spec fn same_setup(before: Self, after: Self) -> bool {
        &&& after.shard() == before.shard()
        &&& after.directory() == before.directory()
        &&& after.max_pending() == before.max_pending()
        &&& after.policy() == before.policy()
    }

    /// Nothing that can be seen of the mailbox has changed.
    pub open spec fn unchanged(before: Self, after: Self) -> bool {
        &&& Self::same_setup(before, after)
        &&& after.key() == before.key()
        &&& after.path() == before.path()
        &&& after.segment() == before.segment()
        &&& after.checkpoints() == before.checkpoints()
        &&& after.batch() == before.batch()
        &&& after.degraded() == before.degraded()
    }

    /// The segment writer has failed: the mailbox is degraded, on the same
    /// segment, with its checkpoints and what was flushed as they were.
    pub open spec fn broken(before: Self, after: Self) -> bool {
        &&& Self::same_setup(before, after)
        &&& after.degraded()
        &&& after.key() == before.key()
        &&& after.path() == before.path()
        &&& after.checkpoints() == before.checkpoints()
        &&& after.segment().durable == before.segment().durable
        &&& after.segment().durable_bytes() == before.segment().durable_bytes()
    }

    /// The location of a record of `bytes` appended to the mailbox as it
    /// stands.
    pub open spec fn next_location(self, bytes: Seq<u8>) -> WriteLocation {
        WriteLocation {
            shard_id: self.shard(),
            file_key: self.key(),
            offset: self.segment().bytes.len() as u64,
            length: bytes.len() as u32,
        }
    }

    /// Why a record is turned away before the segment writer is asked, if
    /// it is: a degraded mailbox takes nothing (`IoError`), a record longer
    /// than a location can describe is `RecordTooLarge`, a full batch is
    /// `QueueFull`.
    pub open spec fn refusal(self, bytes: Seq<u8>) -> Option<StoreError> {
        if self.degraded() {
            Some(StoreError::IoError)
        } else if bytes.len() > u32::MAX {
            Some(StoreError::RecordTooLarge)
        } else if self.batch().len() >= self.max_pending() {
            Some(StoreError::QueueFull)
        } else {
            None
        }
    }

    /// The record `bytes` has been appended at `location`: it lies at the
    /// end of the segment as it was, and at the end of the batch.
    pub open spec fn appended(
        before: Self,
        after: Self,
        bytes: Seq<u8>,
        location: WriteLocation,
    ) -> bool {
        &&& Self::same_setup(before, after)
        &&& before.segment().bytes.len() <= u64::MAX
        &&& location == before.next_location(bytes)
        &&& after.key() == before.key()
        &&& after.path() == before.path()
        &&& after.checkpoints() == before.checkpoints()
        &&& after.segment() == (SegmentView {
            bytes: before.segment().bytes + bytes,
            durable: before.segment().durable,
        })
        &&& after.batch() == before.batch().push(location)
        &&& !after.degraded()
        &&& record_at(after.segment().bytes, location) == bytes
    }

    /// What `append` does.  A record that is refused leaves everything as
    /// it was.  Otherwise the segment writer decides: the record is appended,
    /// or the writer has failed with `IoError` and the batch stands as it
    /// was.
    pub open spec fn append_outcome(
        before: Self,
        after: Self,
        bytes: Seq<u8>,
        result: Result<WriteLocation, StoreError>,
    ) -> bool {
        match before.refusal(bytes) {
            Some(e) => result == Err::<WriteLocation, StoreError>(e) && Self::unchanged(
                before,
                after,
            ),
            None => match result {
                Ok(location) => Self::appended(before, after, bytes, location),
                Err(e) => e == StoreError::IoError && Self::broken(before, after) && after.batch()
                    == before.batch(),
            },
        }
    }

    /// What has become of the active segment once a batch was acknowledged
    /// when the segment held `kept`, at time `now`.
    ///
    /// A segment that is not due, or has no successor, stays: it holds
    /// `kept`, all of it flushed.  A segment that is due is replaced by its
    /// successor, opened in the shard's directory and holding what its own
    /// checkpoint vouches for; or, where that fails, the mailbox is
    /// degraded on the old segment, whose first bytes are still `kept`.
    pub open spec fn rollover_outcome(before: Self, after: Self, kept: Seq<u8>, now: u64) -> bool {
        let end = kept.len();
        let due = before.policy().due_spec(before.key().timestamp, end as u64, now);
        let successor = successor_spec(before.key(), now);
        if due && successor is Some {
            if after.degraded() {
                &&& after.key() == before.key()
                &&& after.path() == before.path()
                &&& after.segment().durable >= end
                &&& after.segment().bytes.take(end as int) == kept
            } else {
                &&& after.key() == successor->0
                &&& after.path() == segment_path_spec(before.directory(), successor->0)
                &&& after.segment().bytes.len() == after.checkpoint()
                &&& after.segment().durable == after.checkpoint()
            }
        } else {
            &&& !after.degraded()
            &&& after.key() == before.key()
            &&& after.path() == before.path()
            &&& after.segment() == (SegmentView { bytes: kept, durable: end })
        }
    }

    /// The batch `acknowledged` has been committed when the segment held
    /// `kept`: the records lie end to end from the old checkpoint to the end
    /// of `kept`, that end is the checkpoint of the segment they lie in, the
    /// batch is empty, and the segment has been rolled over if it was due.
    pub open spec fn committed(
        before: Self,
        after: Self,
        kept: Seq<u8>,
        acknowledged: Seq<WriteLocation>,
        now: u64,
    ) -> bool {
        &&& Self::same_setup(before, after)
        &&& kept.len() <= u64::MAX
        &&& contiguous(acknowledged, before.checkpoint(), kept.len())
        &&& after.batch() == Seq::<WriteLocation>::empty()
        &&& after.checkpoints() == before.checkpoints().insert(
            before.key().hash_spec(),
            kept.len() as u64,
        )
        &&& Self::rollover_outcome(before, after, kept, now)
    }

    /// What `commit` does.  A degraded mailbox fails with `IoError` and
    /// drops its batch.  Otherwise the segment writer decides: the batch is
    /// acknowledged, or the flush has failed with `IoError` and the batch
    /// is dropped.
    pub open spec fn commit_outcome(
        before: Self,
        after: Self,
        now: u64,
        result: Result<Vec<WriteLocation>, StoreError>,
    ) -> bool {
        if before.degraded() {
            &&& result is Err
            &&& result->Err_0 == StoreError::IoError
            &&& Self::broken(before, after)
            &&& after.segment() == before.segment()
            &&& after.batch() == Seq::<WriteLocation>::empty()
        } else {
            match result {
                Ok(acknowledged) => acknowledged@ == before.batch() && Self::committed(
                    before,
                    after,
                    before.segment().bytes,
                    acknowledged@,
                    now,
                ),
                Err(e) => e == StoreError::IoError && Self::broken(before, after) && after.batch()
                    == Seq::<WriteLocation>::empty(),
            }
        }
    }

    /// What `write` does.  A record that is refused leaves everything as
    /// it was.  Otherwise the segment writer decides: the record is
    /// appended and committed with whatever the batch held, or the writer
    /// has failed with `IoError`.
    pub open spec fn write_outcome(
        before: Self,
        after: Self,
        bytes: Seq<u8>,
        now: u64,
        result: Result<WriteLocation, StoreError>,
    ) -> bool {
        match before.refusal(bytes) {
            Some(e) => result == Err::<WriteLocation, StoreError>(e) && Self::unchanged(
                before,
                after,
            ),
            None => match result {
                Ok(location) => {
                    &&& before.segment().bytes.len() <= u64::MAX
                    &&& location == before.next_location(bytes)
                    &&& Self::committed(
                        before,
                        after,
                        before.segment().bytes + bytes,
                        before.batch().push(location),
                        now,
                    )
                    &&& after.key() == before.key() ==> record_at(
                        after.segment().bytes,
                        location,
                    ) == bytes
                },
                Err(e) => e == StoreError::IoError && Self::broken(before, after),
            },
        }
    }

    /// What `submit` does.  A record that is refused leaves everything as
    /// it was.  Otherwise the segment writer decides: the record is
    /// appended, and committed with the batch once the batch holds
    /// `flush_every` records; or the writer has failed with `IoError`.
    pub open spec fn submit_outcome(
        before: Self,
        after: Self,
        bytes: Seq<u8>,
        flush_every: usize,
        now: u64,
        result: Result<Vec<WriteLocation>, StoreError>,
    ) -> bool {
        match before.refusal(bytes) {
            Some(e) => result is Err && result->Err_0 == e && Self::unchanged(before, after),
            None => match result {
                Ok(acknowledged) => {
                    let location = before.next_location(bytes);
                    let batch = before.batch().push(location);
                    if batch.len() >= flush_every {
                        &&& acknowledged@ == batch
                        &&& Self::committed(
                            before,
                            after,
                            before.segment().bytes + bytes,
                            batch,
                            now,
                        )
                    } else {
                        &&& acknowledged@ == Seq::<WriteLocation>::empty()
                        &&& Self::appended(before, after, bytes, location)
                    }
                },
                Err(e) => e == StoreError::IoError && Self::broken(before, after),
            },
        }
    }

    /// Puts a mailbox in front of a writer that has been opened and
    /// recovered, for the segment `file_key` of shard `shard_id`, whose
    /// later segments go to `base_directory`.
    pub fn new(
        shard_id: usize,
        file_key: FileKey,
        base_directory: &str,
        writer: BlockStoreWriter<W>,
        max_pending: usize,
        policy: RolloverPolicy,
    ) -> (mailbox: Self)
        requires
            writer.inv(),
            writer.id() == file_key.hash_spec(),
            file_key.shard_id == shard_id,
            writer.segment().bytes.len() == writer.checkpoint(),
            writer.segment().durable == writer.checkpoint(),
        ensures
            mailbox.inv(),
            mailbox.shard() == shard_id,
            mailbox.key() == file_key,
            mailbox.directory() == base_directory@,
            mailbox.path() == writer.path(),
            mailbox.segment() == writer.segment(),
            mailbox.checkpoints() == writer.checkpoints(),
            mailbox.batch() == Seq::<WriteLocation>::empty(),
            mailbox.max_pending() == max_pending,
            mailbox.policy() == policy,
            !mailbox.degraded(),
    {
        StorageShardMailbox {
            shard_id,
            file_key,
            base_directory: String::from_str(base_directory),
            writer,
            batch: Vec::new(),
            max_pending,
            policy,
            degraded: false,
        }
    }

    /// Opens the segment `file_key` inside `base_directory`, restores what
    /// its checkpoint in `metastore` vouches for, and puts a mailbox in
    /// front of it.
    pub fn open(
        file_key: FileKey,
        base_directory: &str,
        metastore: StorageMetastore,
        max_pending: usize,
        policy: RolloverPolicy,
    ) -> (result: Result<Self, StoreError>)
        ensures
            match result {
                Ok(mailbox) => {
                    &&& mailbox.inv()
                    &&& mailbox.shard() == file_key.shard_id
                    &&& mailbox.key() == file_key
                    &&& mailbox.directory() == base_directory@
                    &&& mailbox.path() == segment_path_spec(base_directory@, file_key)
                    &&& mailbox.checkpoints() == metastore@
                    &&& mailbox.segment().bytes.len() == mailbox.checkpoint()
                    &&& mailbox.segment().durable == mailbox.checkpoint()
                    &&& mailbox.batch() == Seq::<WriteLocation>::empty()
                    &&& mailbox.max_pending() == max_pending
                    &&& mailbox.policy() == policy
                    &&& !mailbox.degraded()
                },
                Err(e) => e == StoreError::IoError || e == StoreError::CorruptRecord,
            },
    {
        let path = segment_path(base_directory, file_key);
        let writer_id = file_key.to_hash();
        match BlockStoreWriter::open(path.as_str(), metastore, writer_id) {
            Ok(writer) => Ok(
                Self::new(file_key.shard_id, file_key, base_directory, writer, max_pending, policy),
            ),
            Err(e) => Err(e),
        }
    }

    /// The key of the active segment.
    pub fn file_key(&self) -> (key: FileKey)
        ensures
            key == self.key(),
    {
        self.file_key
    }

    /// Whether an I/O failure has put the mailbox out of service.
    pub fn is_degraded(&self) -> (degraded: bool)
        ensures
            degraded == self.degraded(),
    {
        self.degraded
    }

    /// How many records wait for the next commit.
    pub fn pending(&self) -> (count: usize)
        ensures
            count == self.batch().len(),
    {
        self.batch.len()
    }

    /// The writer behind the mailbox.
    pub fn writer(&self) -> (writer: &BlockStoreWriter<W>)
        ensures
            writer.segment() == self.segment(),
            writer.path() == self.path(),
            writer.checkpoints() == self.checkpoints(),
            self.inv() ==> writer.inv() && writer.id() == self.key().hash_spec(),
    {
        &self.writer
    }

    /// Appends one record to the active segment and adds it to the batch.
    ///
    /// The record begins where the one before it ended.  It is not yet
    /// durable: the next successful commit acknowledges it.
    ///
    /// Refused, with nothing changed: on a degraded mailbox (`IoError`), a
    /// record longer than a location can describe (`RecordTooLarge`), a full
    /// batch (`QueueFull`).  Where the segment writer fails, the result is
    /// `IoError` and the mailbox is degraded from then on.
    pub fn append(&mut self, bytes: &[u8]) -> (result: Result<WriteLocation, StoreError>)
        requires
            old(self).inv(),
        ensures
            final(self).inv(),
            Self::append_outcome(*old(self), *final(self), bytes@, result),
    {
        if self.degraded {
            return Err(StoreError::IoError);
        }
        if bytes.len() > u32::MAX as usize {
            return Err(StoreError::RecordTooLarge);
        }
        if self.batch.len() >= self.max_pending {
            return Err(StoreError::QueueFull);
        }
        proof {
            self.writer.lemma_inv();
        }
        let ghost before = self.writer.segment().bytes;
        match self.writer.write_all(bytes) {
            Ok(offset) => {
                let location = WriteLocation {
                    shard_id: self.shard_id,
                    file_key: self.file_key,
                    offset,
                    length: bytes.len() as u32,
                };
                proof {
                    lemma_contiguous_push(
                        self.batch@,
                        self.writer.checkpoint(),
                        before.len(),
                        location,
                    );
                }
                self.batch.push(location);
                proof {
                    self.writer.lemma_inv();
                    assert(record_at(before + bytes@, location) =~= bytes@);
                }
                Ok(location)
            },
            Err(_) => {
                self.degraded = true;
                Err(StoreError::IoError)
            },
        }
    }

    /// Flushes the active segment and records its end as the checkpoint.
    fn acknowledge(&mut self) -> (result: Result<Vec<WriteLocation>, StoreError>)
        requires
            old(self).inv(),
        ensures
            final(self).inv(),
            Self::same_setup(*old(self), *final(self)),
            final(self).key() == old(self).key(),
            final(self).path() == old(self).path(),
            final(self).batch() == Seq::<WriteLocation>::empty(),
            old(self).degraded() ==> result is Err && final(self).segment() == old(
                self,
            ).segment(),
            match result {
                Ok(acknowledged) => {
                    let end = old(self).segment().bytes.len();
                    &&& !old(self).degraded() && !final(self).degraded()
                    &&& end <= u64::MAX
                    &&& acknowledged@ == old(self).batch()
                    &&& contiguous(acknowledged@, old(self).checkpoint(), end)
                    &&& final(self).checkpoints() == old(self).checkpoints().insert(
                        old(self).key().hash_spec(),
                        end as u64,
                    )
                    &&& final(self).segment() == (SegmentView {
                        bytes: old(self).segment().bytes,
                        durable: end,
                    })
                },
                Err(e) => e == StoreError::IoError && Self::broken(*old(self), *final(self)),
            },
    {
        if self.degraded {
            self.batch = Vec::new();
            return Err(StoreError::IoError);
        }
        proof {
            self.writer.lemma_inv();
        }
        let mut acknowledged: Vec<WriteLocation> = Vec::new();
        std::mem::swap(&mut acknowledged, &mut self.batch);
        match self.writer.flush() {
            Ok(()) => {},
            Err(_) => {
                self.degraded = true;
                return Err(StoreError::IoError);
            },
        }
        let end = self.writer.position();
        match self.writer.set_commit_checkpoint(end) {
            Ok(()) => {},
            Err(_) => {
                self.degraded = true;
                return Err(StoreError::IoError);
            },
        }
        Ok(acknowledged)
    }

    /// Leaves the active segment, which has just been acknowledged, for
    /// its successor at time `now`, in the shard's directory.  Stays where
    /// timestamps are used up; degrades the mailbox where the new segment
    /// cannot be opened.
    fn roll_over(&mut self, now: u64)
        requires
            old(self).inv(),
            !old(self).degraded(),
            old(self).batch().len() == 0,
            old(self).segment().durable == old(self).segment().bytes.len(),
        ensures
            final(self).inv(),
            Self::same_setup(*old(self), *final(self)),
            final(self).batch() == Seq::<WriteLocation>::empty(),
            final(self).checkpoints() == old(self).checkpoints(),
            match successor_spec(old(self).key(), now) {
                None => Self::unchanged(*old(self), *final(self)),
                Some(next) => if final(self).degraded() {
                    &&& final(self).key() == old(self).key()
                    &&& final(self).path() == old(self).path()
                    &&& final(self).segment().durable >= old(self).segment().durable
                    &&& final(self).segment().bytes.take(old(self).segment().durable as int)
                        == old(self).segment().bytes
                } else {
                    &&& final(self).key() == next
                    &&& final(self).path() == segment_path_spec(old(self).directory(), next)
                    &&& final(self).segment().bytes.len() == final(self).checkpoint()
                    &&& final(self).segment().durable == final(self).checkpoint()
                },
            },
    {
        proof {
            let held = self.writer.segment().bytes;
            assert(held.take(held.len() as int) =~= held);
        }
        match successor(self.file_key, now) {
            None => {},
            Some(next) => {
                let path = segment_path(self.base_directory.as_str(), next);
                let writer_id = next.to_hash();
                match self.writer.switch_segment(path.as_str(), writer_id) {
                    Ok(()) => {
                        self.file_key = next;
                    },
                    Err(_) => {
                        self.degraded = true;
                    },
                }
            },
        }
    }

    /// Acknowledges the batch: flushes the active segment and records its
    /// end as the checkpoint.  The result lists the acknowledged records in
    /// the order they were appended; they lie end to end, from the previous
    /// checkpoint to the new one.
    ///
    /// Then, where the policy says the segment is due at time `now`, the
    /// mailbox rolls over to the segment's successor, in the same
    /// directory.  The old segment is left complete, flushed and
    /// checkpointed at its end.  A rollover that fails degrades the mailbox
    /// but takes nothing back from the acknowledged batch.
    ///
    /// On a degraded mailbox, or where the flush fails, the result is
    /// `IoError` for the whole batch, the batch is dropped, and the mailbox
    /// is degraded.
    pub fn commit(&mut self, now: u64) -> (result: Result<Vec<WriteLocation>, StoreError>)
        requires
            old(self).inv(),
        ensures
            final(self).inv(),
            Self::commit_outcome(*old(self), *final(self), now, result),
    {
        let acknowledged = match self.acknowledge() {
            Ok(acknowledged) => acknowledged,
            Err(e) => {
                return Err(e);
            },
        };
        proof {
            self.writer.lemma_inv();
        }
        let end = self.writer.position();
        if self.policy.due(self.file_key.timestamp, end, now) {
            self.roll_over(now);
        }
        Ok(acknowledged)
    }

    /// Appends one record and commits at once: the record, and whatever
    /// else was in the batch, is durable and checkpointed when this returns
    /// its location.
    pub fn write(&mut self, bytes: &[u8], now: u64) -> (result: Result<WriteLocation, StoreError>)
        requires
            old(self).inv(),
        ensures
            final(self).inv(),
            Self::write_outcome(*old(self), *final(self), bytes@, now, result),
    {
        let location = match self.append(bytes) {
            Ok(location) => location,
            Err(e) => {
                return Err(e);
            },
        };
        let ghost appended = self.segment().bytes;
        proof {
            old(self).lemma_inv();
            self.lemma_inv();
            let durable = old(self).segment().durable as int;
            assert(appended.take(durable) =~= old(self).segment().bytes.take(durable));
        }
        match self.commit(now) {
            Ok(_) => {
                proof {
                    if self.key() == old(self).key() {
                        let kept = self.segment().bytes;
                        self.lemma_inv();
                        assert(appended.len() == location.end());
                        assert(kept.take(location.end() as int) =~= appended);
                        lemma_record_in_prefix(kept, location.end() as int, location);
                    }
                }
                Ok(location)
            },
            Err(e) => Err(e),
        }
    }

    /// Appends one record and commits once the batch holds `flush_every`
    /// records: group commit.  The result lists what was acknowledged,
    /// which is the whole batch, this record last, or nothing yet.
    ///
    /// With `flush_every` at one or zero every record is committed on its
    /// own.
    pub fn submit(&mut self, bytes: &[u8], flush_every: usize, now: u64) -> (result: Result<
        Vec<WriteLocation>,
        StoreError,
    >)
        requires
            old(self).inv(),
        ensures
            final(self).inv(),
            Self::submit_outcome(*old(self), *final(self), bytes@, flush_every, now, result),
    {
        match self.append(bytes) {
            Ok(_) => {},
            Err(e) => {
                return Err(e);
            },
        }
        proof {
            old(self).lemma_inv();
            self.lemma_inv();
            let durable = old(self).segment().durable as int;
            assert(self.segment().bytes.take(durable) =~= old(self).segment().bytes.take(durable));
        }
        if self.batch.len() >= flush_every {
            self.commit(now)
        } else {
            Ok(Vec::new())
        }
    }
}

} // verus!
