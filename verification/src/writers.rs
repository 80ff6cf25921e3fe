//! Segment writers: the append-only files of the store, and the writer that
//! pairs one with its commit checkpoint.

use crate::error::StoreError;
use crate::wire::append_bytes;
use std::collections::HashMap;
use vstd::prelude::*;
use vstd::string::*;

verus! {

broadcast use vstd::std_specs::hash::group_hash_axioms;

/// A segment as its writer sees it: everything appended so far, and how
/// much of it is known to be on durable storage.
pub struct SegmentView {
    /// The bytes of the segment, from its start to its logical end.
    pub bytes: Seq<u8>,
    /// The length of the prefix that has been flushed.
    pub durable: nat,
}

impl SegmentView {
    /// No more is durable than was written, and offsets fit 64 bits.
    pub open spec fn valid(self) -> bool {
        self.durable <= self.bytes.len() <= u64::MAX
    }

    /// The prefix that has been flushed.
    pub open spec fn durable_bytes(self) -> Seq<u8> {
        self.bytes.take(self.durable as int)
    }
}

/// What a crash may leave of a segment: a file that still begins with
/// everything that was flushed.  Beyond that it may hold any part of what
/// was appended since, torn or whole, or nothing.
pub open spec fn survives(segment: SegmentView, file: Seq<u8>) -> bool {
    &&& file.len() >= segment.durable
    &&& file.take(segment.durable as int) == segment.durable_bytes()
}

/// What recovery makes of a file under a checkpoint: the file cut back to
/// the checkpoint, or nothing where the file is shorter than that.
pub open spec fn recovered(file: Seq<u8>, checkpoint: nat) -> Option<Seq<u8>> {
    if checkpoint <= file.len() {
        Some(file.take(checkpoint as int))
    } else {
        None
    }
}

/// **Checkpoint durability.**  Whatever a crash leaves of a segment,
/// recovery under a checkpoint that was recorded for it succeeds and
/// restores exactly the bytes up to the checkpoint, as they were written.
/// Nothing beyond the checkpoint remains.
pub proof fn lemma_checkpoint_durability(segment: SegmentView, checkpoint: nat, file: Seq<u8>)
    requires
        segment.valid(),
        checkpoint <= segment.durable,
        survives(segment, file),
    ensures
        recovered(file, checkpoint) == Some(segment.bytes.take(checkpoint as int)),
        recovered(file, checkpoint)->0.len() == checkpoint,
{
    let kept = file.take(checkpoint as int);
    let flushed = file.take(segment.durable as int);
    assert(kept =~= flushed.take(checkpoint as int));
    assert(segment.durable_bytes().take(checkpoint as int) =~= segment.bytes.take(
        checkpoint as int,
    ));
}

/// The path of a segment, as text.
pub type SegmentPath = Seq<char>;

/// What a backend has to offer to hold a segment: open, append, flush, and
/// cutting off a tail during recovery.
///
/// Appends are strictly ordered: each begins where the one before it ended,
/// so the offset of the n-th append is the segment's length at open plus
/// the lengths of the appends before it.
///
/// The store is proved against what the methods promise here.  The backend
/// of this library, [`AutoWriter`], is proved to keep these promises; a
/// backend from elsewhere is taken at its word.
pub trait SegmentWriter: Sized {
    /// The segment as this writer sees it.
    spec fn segment(&self) -> SegmentView;

    /// What the backend needs to hold of itself between calls.
    spec fn inv(&self) -> bool;

    /// Where the segment lies: the path it was opened at.
    spec fn path(&self) -> SegmentPath;

    /// Opens the segment at `path`, creating it empty if it is not there.
    /// The writer continues at the end of what the segment already holds,
    /// all of which counts as durable.  Fails with `IoError`.
    fn open(path: &str) -> (result: Result<Self, StoreError>)
        ensures
            match result {
                Ok(writer) => {
                    &&& writer.inv()
                    &&& writer.path() == path@
                    &&& writer.segment().valid()
                    &&& writer.segment().durable == writer.segment().bytes.len()
                },
                Err(e) => e == StoreError::IoError,
            },
    ;

    /// The logical end of the segment: the offset the next append will
    /// begin at.
    fn position(&self) -> (position: u64)
        requires
            self.inv(),
            self.segment().valid(),
        ensures
            position == self.segment().bytes.len(),
    ;

    /// Appends `bytes` at the logical end and returns the offset they begin
    /// at.  This alone does not make them durable.  On `IoError` what has
    /// been flushed before is untouched.
    fn write_all(&mut self, bytes: &[u8]) -> (result: Result<u64, StoreError>)
        requires
            old(self).inv(),
            old(self).segment().valid(),
        ensures
            final(self).inv(),
            final(self).path() == old(self).path(),
            final(self).segment().valid(),
            match result {
                Ok(offset) => {
                    &&& offset == old(self).segment().bytes.len()
                    &&& final(self).segment() == (SegmentView {
                        bytes: old(self).segment().bytes + bytes@,
                        durable: old(self).segment().durable,
                    })
                },
                Err(e) => {
                    &&& e == StoreError::IoError
                    &&& final(self).segment().durable == old(self).segment().durable
                    &&& final(self).segment().durable_bytes() == old(self).segment().durable_bytes()
                },
            },
    ;

    /// Forces everything appended so far to durable storage.  On `IoError`
    /// no more counts as durable than before.
    fn flush(&mut self) -> (result: Result<(), StoreError>)
        requires
            old(self).inv(),
            old(self).segment().valid(),
        ensures
            final(self).inv(),
            final(self).path() == old(self).path(),
            final(self).segment().valid(),
            match result {
                Ok(()) => final(self).segment() == (SegmentView {
                    bytes: old(self).segment().bytes,
                    durable: old(self).segment().bytes.len(),
                }),
                Err(e) => {
                    &&& e == StoreError::IoError
                    &&& final(self).segment().durable == old(self).segment().durable
                    &&& final(self).segment().durable_bytes() == old(self).segment().durable_bytes()
                },
            },
    ;

    /// Cuts the segment down to its first `len` bytes, durably.
    fn truncate(&mut self, len: u64) -> (result: Result<(), StoreError>)
        requires
            old(self).inv(),
            old(self).segment().valid(),
            len <= old(self).segment().bytes.len(),
        ensures
            final(self).inv(),
            final(self).path() == old(self).path(),
            final(self).segment().valid(),
            match result {
                Ok(()) => final(self).segment() == (SegmentView {
                    bytes: old(self).segment().bytes.take(len as int),
                    durable: len as nat,
                }),
                Err(e) => e == StoreError::IoError,
            },
    ;
}

/// The backends the store comes with.
///
/// A backend that writes to a file implements [`SegmentWriter`] where files
/// can be opened; the one here keeps its segment in memory.
#[derive(Debug)]
pub enum AutoWriter {
    /// A segment held in memory, with room for `capacity` bytes.
    Buffer {
        /// The path the segment was opened at.
        path: String,
        /// The bytes of the segment.
        data: Vec<u8>,
        /// How many of them have been flushed.
        flushed: usize,
        /// How many bytes the segment may hold; an append past it fails
        /// as a full device would.
        capacity: usize,
    },
}

impl AutoWriter {
    /// A segment at `path` that already holds `data`, all of it durable, as
    /// one found on disk when the store starts, with room for `capacity`
    /// bytes.
    pub fn with_contents(path: &str, data: Vec<u8>, capacity: usize) -> (writer: AutoWriter)
        ensures
            writer.inv(),
            writer.path() == path@,
            writer.segment() == (SegmentView { bytes: data@, durable: data@.len() }),
            writer.segment().valid(),
            writer->capacity == capacity,
    {
        let flushed = data.len();
        AutoWriter::Buffer { path: String::from_str(path), data, flushed, capacity }
    }

    /// The bytes of the segment.
    pub fn contents(&self) -> (data: &Vec<u8>)
        ensures
            data@ == self.segment().bytes,
    {
        match self {
            AutoWriter::Buffer { data, .. } => data,
        }
    }

    /// How many bytes have been flushed.
    pub fn flushed_len(&self) -> (flushed: usize)
        ensures
            flushed == self.segment().durable,
    {
        match self {
            AutoWriter::Buffer { flushed, .. } => *flushed,
        }
    }
}

impl SegmentWriter for AutoWriter {
    open spec fn segment(&self) -> SegmentView {
        match self {
            AutoWriter::Buffer { data, flushed, .. } => SegmentView {
                bytes: data@,
                durable: *flushed as nat,
            },
        }
    }

    open spec fn inv(&self) -> bool {
        match self {
            AutoWriter::Buffer { data, flushed, .. } => *flushed <= data@.len(),
        }
    }

    open spec fn path(&self) -> SegmentPath {
        match self {
            AutoWriter::Buffer { path, .. } => path@,
        }
    }

    /// An in-memory segment is not found anywhere, whatever the path: it
    /// always opens, holds nothing, has nothing flushed, and has room for as
    /// many bytes as can be addressed.
    fn open(path: &str) -> (result: Result<Self, StoreError>)
        ensures
            result is Ok,
            result->Ok_0.segment() == (SegmentView { bytes: Seq::empty(), durable: 0 }),
            result->Ok_0->capacity == usize::MAX,
    {
        Ok(
            AutoWriter::Buffer {
                path: String::from_str(path),
                data: Vec::new(),
                flushed: 0,
                capacity: usize::MAX,
            },
        )
    }

    fn position(&self) -> (position: u64) {
        match self {
            AutoWriter::Buffer { data, .. } => data.len() as u64,
        }
    }

    /// Fails, changing nothing, exactly when the bytes do not fit the
    /// segment's capacity.
    fn write_all(&mut self, bytes: &[u8]) -> (result: Result<u64, StoreError>)
        ensures
            result is Ok <==> old(self).segment().bytes.len() + bytes@.len() <= old(
                self,
            )->capacity,
            result is Err ==> final(self).segment() == old(self).segment(),
            final(self)->capacity == old(self)->capacity,
    {
        match self {
            AutoWriter::Buffer { data, flushed, capacity, .. } => {
                let offset = data.len();
                if offset > *capacity || bytes.len() > *capacity - offset {
                    return Err(StoreError::IoError);
                }
                append_bytes(data, bytes);
                Ok(offset as u64)
            },
        }
    }

    /// Never fails.
    fn flush(&mut self) -> (result: Result<(), StoreError>)
        ensures
            result is Ok,
            final(self)->capacity == old(self)->capacity,
    {
        match self {
            AutoWriter::Buffer { data, flushed, .. } => {
                *flushed = data.len();
                Ok(())
            },
        }
    }

    /// Never fails.
    fn truncate(&mut self, len: u64) -> (result: Result<(), StoreError>)
        ensures
            result is Ok,
            final(self)->capacity == old(self)->capacity,
    {
        match self {
            AutoWriter::Buffer { data, flushed, .. } => {
                data.truncate(len as usize);
                *flushed = len as usize;
                Ok(())
            },
        }
    }
}

/// "All bytes up to `position` of this writer's segment are durably
/// flushed."
#[derive(Clone, Copy, Debug, PartialEq, Eq, Structural)]
pub struct Checkpoint {
    /// The writer the checkpoint belongs to.
    pub writer_id: u64,
    /// The durable end of the writer's segment.
    pub position: u64,
}

/// The checkpoints a list of records leaves behind: for each writer, the
/// position of its last record.
pub open spec fn checkpoints_of(records: Seq<Checkpoint>) -> Map<u64, u64>
    decreases records.len(),
{
    if records.len() == 0 {
        Map::empty()
    } else {
        checkpoints_of(records.drop_last()).insert(
            records.last().writer_id,
            records.last().position,
        )
    }
}

/// The commit checkpoints of the store, one per writer.
pub struct StorageMetastore {
    checkpoints: HashMap<u64, u64>,
}

impl View for StorageMetastore {
    type V = Map<u64, u64>;

    closed spec fn view(&self) -> Map<u64, u64> {
        self.checkpoints@
    }
}

impl StorageMetastore {
    /// A metastore without checkpoints.
    pub fn new() -> (metastore: StorageMetastore)
        ensures
            metastore@ == Map::<u64, u64>::empty(),
    {
        StorageMetastore { checkpoints: HashMap::new() }
    }

    /// A metastore holding the given records; of two records of one writer
    /// the later one counts.
    pub fn from_checkpoints(records: &[Checkpoint]) -> (metastore: StorageMetastore)
        ensures
            metastore@ == checkpoints_of(records@),
    {
        let mut checkpoints: HashMap<u64, u64> = HashMap::new();
        let mut i: usize = 0;
        assert(records@.take(0) =~= Seq::<Checkpoint>::empty());
        while i < records.len()
            invariant
                i <= records.len(),
                checkpoints@ == checkpoints_of(records@.take(i as int)),
            decreases records.len() - i,
        {
            let record = records[i];
            checkpoints.insert(record.writer_id, record.position);
            assert(records@.take(i + 1).drop_last() =~= records@.take(i as int));
            i += 1;
        }
        assert(records@.take(records.len() as int) =~= records@);
        StorageMetastore { checkpoints }
    }

    /// Records `position` as the checkpoint of `writer_id`.
    pub fn set_checkpoint(&mut self, writer_id: u64, position: u64) -> (result: Result<
        (),
        StoreError,
    >)
        ensures
            result is Ok,
            final(self)@ == old(self)@.insert(writer_id, position),
    {
        self.checkpoints.insert(writer_id, position);
        Ok(())
    }

    /// The checkpoint of `writer_id`, if one was recorded.
    pub fn get_checkpoint(&self, writer_id: u64) -> (position: Option<u64>)
        ensures
            position == if self@.contains_key(writer_id) {
                Some(self@[writer_id])
            } else {
                None
            },
    {
        match self.checkpoints.get(&writer_id) {
            Some(position) => Some(*position),
            None => None,
        }
    }
}

/// Persists document blocks: a segment writer together with the metastore
/// that holds its commit checkpoint.
pub struct BlockStoreWriter<W: SegmentWriter> {
    segment_writer: W,
    metastore: StorageMetastore,
    writer_id: u64,
    flushed: u64,
}

impl<W: SegmentWriter> BlockStoreWriter<W> {
    /// The segment as the writer sees it.
    pub closed spec fn segment(&self) -> SegmentView {
        self.segment_writer.segment()
    }

    /// The writer's id in the metastore.
    pub closed spec fn id(&self) -> u64 {
        self.writer_id
    }

    /// Where the writer's segment lies: the path it was opened at.
    pub closed spec fn path(&self) -> Seq<char> {
        self.segment_writer.path()
    }

    /// The checkpoints recorded in the writer's metastore.
    pub closed spec fn checkpoints(&self) -> Map<u64, u64> {
        self.metastore@
    }

    /// The writer's commit checkpoint; zero while none is recorded.
    pub open spec fn checkpoint(&self) -> nat {
        if self.checkpoints().contains_key(self.id()) {
            self.checkpoints()[self.id()] as nat
        } else {
            0
        }
    }

    /// The checkpoint never runs ahead of what has been flushed.
    pub closed spec fn inv(&self) -> bool {
        &&& self.segment_writer.inv()
        &&& self.segment_writer.segment().valid()
        &&& self.flushed == self.segment_writer.segment().durable
        &&& self.checkpoint() <= self.flushed
    }

    /// What the invariant says of the segment and the checkpoint.
    pub proof fn lemma_inv(&self)
        requires
            self.inv(),
        ensures
            self.segment().valid(),
            self.checkpoint() <= self.segment().durable,
    {
    }

    /// Takes over a segment writer that has just been opened and restores
    /// the state its checkpoint vouches for.
    ///
    /// The checkpoint in `metastore` is the authority on what is durable:
    /// whatever the segment holds beyond it is cut off.  A segment shorter
    /// than its checkpoint has lost acknowledged data and is a
    /// `CorruptRecord`.  A writer without a checkpoint starts empty.
    pub fn recover(segment_writer: W, metastore: StorageMetastore, writer_id: u64) -> (result:
        Result<Self, StoreError>)
        requires
            segment_writer.inv(),
            segment_writer.segment().valid(),
        ensures
            ({
                let found = segment_writer.segment().bytes;
                let checkpoint = if metastore@.contains_key(writer_id) {
                    metastore@[writer_id] as nat
                } else {
                    0
                };
                match result {
                    Ok(writer) => {
                        &&& checkpoint <= found.len()
                        &&& writer.inv()
                        &&& writer.path() == segment_writer.path()
                        &&& writer.id() == writer_id
                        &&& writer.checkpoints() == metastore@
                        &&& writer.segment() == (SegmentView {
                            bytes: found.take(checkpoint as int),
                            durable: checkpoint,
                        })
                    },
                    Err(e) => if checkpoint > found.len() {
                        e == StoreError::CorruptRecord
                    } else {
                        e == StoreError::IoError
                    },
                }
            }),
    {
        let mut segment_writer = segment_writer;
        let checkpoint = match metastore.get_checkpoint(writer_id) {
            Some(position) => position,
            None => 0,
        };
        let position = segment_writer.position();
        if checkpoint > position {
            return Err(StoreError::CorruptRecord);
        }
        match segment_writer.truncate(checkpoint) {
            Ok(()) => Ok(
                BlockStoreWriter { segment_writer, metastore, writer_id, flushed: checkpoint },
            ),
            Err(_) => Err(StoreError::IoError),
        }
    }

    /// Opens the segment at `file_path`, creating it if it is not there,
    /// and restores the state its checkpoint vouches for.
    pub fn open(file_path: &str, metastore: StorageMetastore, writer_id: u64) -> (result: Result<
        Self,
        StoreError,
    >)
        ensures
            match result {
                Ok(writer) => {
                    &&& writer.inv()
                    &&& writer.path() == file_path@
                    &&& writer.id() == writer_id
                    &&& writer.checkpoints() == metastore@
                    &&& writer.segment().bytes.len() == writer.checkpoint()
                    &&& writer.segment().durable == writer.checkpoint()
                },
                Err(e) => e == StoreError::IoError || e == StoreError::CorruptRecord,
            },
    {
        match W::open(file_path) {
            Ok(segment_writer) => Self::recover(segment_writer, metastore, writer_id),
            Err(_) => Err(StoreError::IoError),
        }
    }

    /// The logical end of the segment.
    pub fn position(&self) -> (position: u64)
        requires
            self.inv(),
        ensures
            position == self.segment().bytes.len(),
    {
        self.segment_writer.position()
    }

    /// The segment writer behind this writer.
    pub fn segment_writer(&self) -> (writer: &W)
        ensures
            writer.segment() == self.segment(),
            writer.path() == self.path(),
    {
        &self.segment_writer
    }

    /// The writer's id in the metastore.
    pub fn writer_id(&self) -> (id: u64)
        ensures
            id == self.id(),
    {
        self.writer_id
    }

    /// The writer's commit checkpoint; zero while none is recorded.
    pub fn commit_checkpoint(&self) -> (position: u64)
        ensures
            position == self.checkpoint(),
    {
        match self.metastore.get_checkpoint(self.writer_id) {
            Some(position) => position,
            None => 0,
        }
    }

    /// The end of what has been flushed.
    pub fn flushed_position(&self) -> (position: u64)
        requires
            self.inv(),
        ensures
            position == self.segment().durable,
    {
        self.flushed
    }

    /// Writes a block of data into the store and returns the position it
    /// was written at.
    pub fn write_all(&mut self, bytes: &[u8]) -> (result: Result<u64, StoreError>)
        requires
            old(self).inv(),
        ensures
            final(self).inv(),
            final(self).path() == old(self).path(),
            final(self).id() == old(self).id(),
            final(self).checkpoints() == old(self).checkpoints(),
            match result {
                Ok(offset) => {
                    &&& offset == old(self).segment().bytes.len()
                    &&& final(self).segment() == (SegmentView {
                        bytes: old(self).segment().bytes + bytes@,
                        durable: old(self).segment().durable,
                    })
                },
                Err(e) => {
                    &&& e == StoreError::IoError
                    &&& final(self).segment().durable == old(self).segment().durable
                    &&& final(self).segment().durable_bytes() == old(self).segment().durable_bytes()
                },
            },
    {
        self.segment_writer.write_all(bytes)
    }

    /// Makes sure everything written so far is safely persisted.
    pub fn flush(&mut self) -> (result: Result<(), StoreError>)
        requires
            old(self).inv(),
        ensures
            final(self).inv(),
            final(self).path() == old(self).path(),
            final(self).id() == old(self).id(),
            final(self).checkpoints() == old(self).checkpoints(),
            match result {
                Ok(()) => final(self).segment() == (SegmentView {
                    bytes: old(self).segment().bytes,
                    durable: old(self).segment().bytes.len(),
                }),
                Err(e) => {
                    &&& e == StoreError::IoError
                    &&& final(self).segment().durable == old(self).segment().durable
                    &&& final(self).segment().durable_bytes() == old(self).segment().durable_bytes()
                },
            },
    {
        match self.segment_writer.flush() {
            Ok(()) => {
                self.flushed = self.segment_writer.position();
                Ok(())
            },
            Err(e) => Err(e),
        }
    }

    /// Stores `pos` as the writer's commit checkpoint.
    ///
    /// A checkpoint vouches for flushed bytes only: a position beyond what
    /// has been flushed is refused with `NotDurable`, and nothing changes.
    pub fn set_commit_checkpoint(&mut self, pos: u64) -> (result: Result<(), StoreError>)
        requires
            old(self).inv(),
        ensures
            final(self).inv(),
            final(self).path() == old(self).path(),
            final(self).id() == old(self).id(),
            final(self).segment() == old(self).segment(),
            match result {
                Ok(()) => {
                    &&& pos <= old(self).segment().durable
                    &&& final(self).checkpoints() == old(self).checkpoints().insert(
                        old(self).id(),
                        pos,
                    )
                    &&& final(self).checkpoint() == pos
                },
                Err(e) => {
                    &&& e == StoreError::NotDurable
                    &&& pos > old(self).segment().durable
                    &&& final(self).checkpoints() == old(self).checkpoints()
                },
            },
    {
        if pos > self.flushed {
            return Err(StoreError::NotDurable);
        }
        let _ = self.metastore.set_checkpoint(self.writer_id, pos);
        Ok(())
    }

    /// Flushes the segment and continues on a new one: the segment at
    /// `file_path`, under the id `writer_id`.
    ///
    /// The old segment keeps its checkpoint.  On failure the writer stays
    /// on the old segment, with what was durable there still in place.
    pub fn switch_segment(&mut self, file_path: &str, writer_id: u64) -> (result: Result<
        (),
        StoreError,
    >)
        requires
            old(self).inv(),
        ensures
            final(self).inv(),
            final(self).checkpoints() == old(self).checkpoints(),
            match result {
                Ok(()) => {
                    &&& final(self).path() == file_path@
                    &&& final(self).id() == writer_id
                    &&& final(self).segment().bytes.len() == final(self).checkpoint()
                    &&& final(self).segment().durable == final(self).checkpoint()
                },
                Err(e) => {
                    &&& e == StoreError::IoError || e == StoreError::CorruptRecord
                    &&& final(self).path() == old(self).path()
                    &&& final(self).id() == old(self).id()
                    &&& final(self).segment().durable >= old(self).segment().durable
                    &&& final(self).segment().bytes.take(old(self).segment().durable as int)
                        == old(self).segment().durable_bytes()
                },
            },
    {
        match self.flush() {
            Ok(()) => {},
            Err(e) => {
                return Err(e);
            },
        }
        let next = match W::open(file_path) {
            Ok(next) => next,
            Err(e) => {
                return Err(e);
            },
        };
        let checkpoint = match self.metastore.get_checkpoint(writer_id) {
            Some(position) => position,
            None => 0,
        };
        let mut next = next;
        if checkpoint > next.position() {
            return Err(StoreError::CorruptRecord);
        }
        match next.truncate(checkpoint) {
            Ok(()) => {},
            Err(e) => {
                return Err(e);
            },
        }
        self.segment_writer = next;
        self.writer_id = writer_id;
        self.flushed = checkpoint;
        Ok(())
    }
}

} // verus!
