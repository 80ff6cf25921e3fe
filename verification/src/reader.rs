//! Reading records back by their locations.

use crate::codec::{decode, decode_spec};
use crate::document::{texts, DocumentBlock};
use crate::file_key::{parse_segment_name, segment_name, FileKey};
use crate::shard::{record_at, WriteLocation};
use vstd::prelude::*;
use vstd::slice::{slice_subrange, slice_to_vec};

verus! {

broadcast use vstd::slice::group_slice_axioms;

/// Why a record could not be read.
#[derive(Clone, Copy, Debug, PartialEq, Eq, Structural)]
pub enum BlockReadError {
    /// The segment the location names is not among the known segments.
    NotFound,
    /// The location runs past the end of its segment, or the bytes it
    /// describes are not an encoded block.
    CorruptRecord,
}

/// The keys of those names that are segment file names, in order.  Other
/// names are passed over.
pub open spec fn known_segments(names: Seq<Seq<char>>) -> Seq<FileKey>
    decreases names.len(),
{
    if names.len() == 0 {
        Seq::empty()
    } else {
        let front = known_segments(names.drop_last());
        match parse_segment_name(names.last()) {
            Some(key) => front.push(key),
            None => front,
        }
    }
}

/// Finds records in segments.  A reader never changes a segment, so any
/// number of readers may work at once.
#[derive(Clone, Debug)]
pub struct BlockStoreReader {
    segments: Vec<FileKey>,
}

impl View for BlockStoreReader {
    type V = Seq<FileKey>;

    closed spec fn view(&self) -> Seq<FileKey> {
        self.segments@
    }
}

impl BlockStoreReader {
    /// A reader that knows the given segments.
    pub fn new(segments: Vec<FileKey>) -> (reader: BlockStoreReader)
        ensures
            reader@ == segments@,
    {
        BlockStoreReader { segments }
    }

    /// A reader that knows the segments among the given file names.  Names
    /// that are not segment file names are passed over.
    pub fn from_file_names(names: &Vec<String>) -> (reader: BlockStoreReader)
        ensures
            reader@ == known_segments(texts(names@)),
    {
        let mut segments: Vec<FileKey> = Vec::new();
        let mut i: usize = 0;
        assert(texts(names@).take(0) =~= Seq::<Seq<char>>::empty());
        while i < names.len()
            invariant
                i <= names.len(),
                segments@ == known_segments(texts(names@).take(i as int)),
            decreases names.len() - i,
        {
            proof {
                let seen = texts(names@).take(i + 1);
                assert(seen.drop_last() =~= texts(names@).take(i as int));
                assert(seen.last() == names@[i as int]@);
            }
            match FileKey::from_file_name(names[i].as_str()) {
                Ok(key) => {
                    segments.push(key);
                },
                Err(_) => {},
            }
            i += 1;
        }
        assert(texts(names@).take(names.len() as int) =~= texts(names@));
        BlockStoreReader { segments }
    }

    /// Whether the reader knows the segment `key`.
    pub fn knows(&self, key: FileKey) -> (known: bool)
        ensures
            known == self@.contains(key),
    {
        let mut i: usize = 0;
        while i < self.segments.len()
            invariant
                i <= self.segments.len(),
                forall|k: int| 0 <= k < i ==> self.segments@[k] != key,
            decreases self.segments.len() - i,
        {
            if self.segments[i] == key {
                return true;
            }
            i += 1;
        }
        false
    }

    /// The name of the file that holds the record, or `NotFound` where the
    /// reader does not know the record's segment.
    pub fn locate(&self, location: WriteLocation) -> (result: Result<String, BlockReadError>)
        ensures
            match result {
                Ok(name) => self@.contains(location.file_key) && name@ == segment_name(
                    location.file_key,
                ),
                Err(e) => e == BlockReadError::NotFound && !self@.contains(location.file_key),
            },
    {
        if self.knows(location.file_key) {
            Ok(location.file_key.file_name())
        } else {
            Err(BlockReadError::NotFound)
        }
    }

    /// The bytes of the record at `location`, taken from `segment`, the
    /// contents of the segment the location names.
    ///
    /// `NotFound` where the reader does not know the segment;
    /// `CorruptRecord` where the location runs past the segment's end.
    pub fn read(&self, segment: &[u8], location: WriteLocation) -> (result: Result<
        Vec<u8>,
        BlockReadError,
    >)
        ensures
            match result {
                Ok(bytes) => {
                    &&& self@.contains(location.file_key)
                    &&& location.end() <= segment@.len()
                    &&& bytes@ == record_at(segment@, location)
                },
                Err(BlockReadError::NotFound) => !self@.contains(location.file_key),
                Err(BlockReadError::CorruptRecord) => {
                    &&& self@.contains(location.file_key)
                    &&& location.end() > segment@.len()
                },
            },
    {
        if !self.knows(location.file_key) {
            return Err(BlockReadError::NotFound);
        }
        let len = segment.len() as u64;
        if location.offset > len || location.length as u64 > len - location.offset {
            return Err(BlockReadError::CorruptRecord);
        }
        let from = location.offset as usize;
        let to = from + location.length as usize;
        Ok(slice_to_vec(slice_subrange(segment, from, to)))
    }

    /// The block stored at `location`, decoded from `segment`, the contents
    /// of the segment the location names.
    ///
    /// `NotFound` where the reader does not know the segment;
    /// `CorruptRecord` where the location runs past the segment's end or
    /// the bytes it describes are not the encoding of a valid block.
    pub fn read_block(&self, segment: &[u8], location: WriteLocation) -> (result: Result<
        DocumentBlock,
        BlockReadError,
    >)
        ensures
            match result {
                Ok(block) => {
                    &&& self@.contains(location.file_key)
                    &&& location.end() <= segment@.len()
                    &&& decode_spec(record_at(segment@, location)) == Some(block@)
                },
                Err(BlockReadError::NotFound) => !self@.contains(location.file_key),
                Err(BlockReadError::CorruptRecord) => {
                    &&& self@.contains(location.file_key)
                    &&& location.end() > segment@.len() || decode_spec(
                        record_at(segment@, location),
                    ) is None
                },
            },
    {
        let bytes = match self.read(segment, location) {
            Ok(bytes) => bytes,
            Err(e) => {
                return Err(e);
            },
        };
        match decode(bytes.as_slice()) {
            Ok(block) => Ok(block),
            Err(_) => Err(BlockReadError::CorruptRecord),
        }
    }
}

} // verus!
