//! Segment file keys: which shard a segment belongs to and when it was
//! created.

use crate::decimal::{
    decimal, is_digit, lemma_decimal, lemma_parse_decimal, parse_decimal, parse_unsigned,
    push_decimal,
};
use crate::error::StoreError;
use vstd::prelude::*;
use vstd::string::*;

verus! {

/// Identifies one segment file.
///
/// Within a shard, a later segment has a larger timestamp, so the keys of a
/// shard order its segments in time.
#[derive(Debug, Copy, Clone, PartialEq, Eq, Structural)]
pub struct FileKey {
    /// When the file was created, in seconds since the epoch.
    pub timestamp: u64,
    /// The shard that owns the file.
    pub shard_id: usize,
}

/// The rendering of a key: timestamp, a dash, shard id.
pub open spec fn key_text(key: FileKey) -> Seq<char> {
    decimal(key.timestamp as nat) + seq!['-'] + decimal(key.shard_id as nat)
}

/// Whether the first dash of `s` is at index `i`.
pub open spec fn is_first_dash(s: Seq<char>, i: int) -> bool {
    &&& 0 <= i < s.len()
    &&& s[i] == '-'
    &&& forall|k: int| 0 <= k < i ==> #[trigger] s[k] != '-'
}

/// The key that `s` renders, if any: `s` is split at its first dash, and
/// the two sides are read as a timestamp and a shard id.
pub open spec fn parse_key(s: Seq<char>) -> Option<FileKey> {
    if exists|i: int| is_first_dash(s, i) {
        let i = choose|i: int| is_first_dash(s, i);
        match (
            parse_unsigned(s.take(i), u64::MAX as nat),
            parse_unsigned(s.skip(i + 1), usize::MAX as nat),
        ) {
            (Some(timestamp), Some(shard_id)) => Some(
                FileKey { timestamp: timestamp as u64, shard_id: shard_id as usize },
            ),
            _ => None,
        }
    } else {
        None
    }
}

/// The extension of a segment file's name.
pub open spec fn segment_suffix() -> Seq<char> {
    seq!['.', 'b', 'l', 'o', 'c', 'k', 's']
}

/// The name of the segment file with the given key.
pub open spec fn segment_name(key: FileKey) -> Seq<char> {
    key_text(key) + segment_suffix()
}

/// The key of the segment file called `name`, if `name` is a segment file's
/// name.
pub open spec fn parse_segment_name(name: Seq<char>) -> Option<FileKey> {
    let stem = name.len() - segment_suffix().len();
    if stem >= 0 && name.skip(stem) == segment_suffix() {
        parse_key(name.take(stem))
    } else {
        None
    }
}

/// The bytes a key is hashed from: the timestamp as eight big-endian bytes,
/// then the low 32 bits of the shard id as four.
pub open spec fn hash_input(key: FileKey) -> Seq<u8> {
    let t = key.timestamp as nat;
    let s = key.shard_id as nat % 0x1_0000_0000;
    seq![
        (t / 0x100_0000_0000_0000) as u8,
        (t / 0x1_0000_0000_0000 % 256) as u8,
        (t / 0x100_0000_0000 % 256) as u8,
        (t / 0x1_0000_0000 % 256) as u8,
        (t / 0x100_0000 % 256) as u8,
        (t / 0x1_0000 % 256) as u8,
        (t / 0x100 % 256) as u8,
        (t % 256) as u8,
        (s / 0x100_0000) as u8,
        (s / 0x1_0000 % 256) as u8,
        (s / 0x100 % 256) as u8,
        (s % 256) as u8,
    ]
}

/// The 64-bit FNV-1a hash of `bytes`.
pub open spec fn fnv1a(bytes: Seq<u8>) -> u64
    decreases bytes.len(),
{
    if bytes.len() == 0 {
        0xcbf2_9ce4_8422_2325
    } else {
        (((fnv1a(bytes.drop_last()) ^ (bytes.last() as u64)) as int * 0x100_0000_01b3)
            % 0x1_0000_0000_0000_0000) as u64
    }
}

/// The 64-bit FNV-1a hash of `bytes`.
pub fn hash_of(bytes: &[u8]) -> (hash: u64)
    ensures
        hash == fnv1a(bytes@),
{
    let mut hash: u64 = 0xcbf2_9ce4_8422_2325;
    let mut i: usize = 0;
    assert(bytes@.take(0) =~= Seq::<u8>::empty());
    while i < bytes.len()
        invariant
            i <= bytes.len(),
            hash == fnv1a(bytes@.take(i as int)),
        decreases bytes.len() - i,
    {
        let mixed: u64 = hash ^ (bytes[i] as u64);
        let product: u128 = mixed as u128 * 0x100_0000_01b3u128;
        hash = (product % 0x1_0000_0000_0000_0000u128) as u64;
        assert(bytes@.take(i + 1).drop_last() =~= bytes@.take(i as int));
        i += 1;
    }
    assert(bytes@.take(bytes.len() as int) =~= bytes@);
    hash
}

/// **Key round trip.**  The rendering of a key parses back to the key.
pub proof fn lemma_key_round_trip(key: FileKey)
    ensures
        parse_key(key_text(key)) == Some(key),
{
    let left = decimal(key.timestamp as nat);
    let right = decimal(key.shard_id as nat);
    let s = key_text(key);
    let at = left.len() as int;
    lemma_decimal(key.timestamp as nat);
    lemma_decimal(key.shard_id as nat);
    lemma_parse_decimal(key.timestamp as nat, u64::MAX as nat);
    lemma_parse_decimal(key.shard_id as nat, usize::MAX as nat);
    assert(is_first_dash(s, at)) by {
        assert forall|k: int| 0 <= k < at implies #[trigger] s[k] != '-' by {
            assert(is_digit(left[k]));
        }
    }
    let i = choose|i: int| is_first_dash(s, i);
    assert(i == at) by {
        if i < at {
            assert(s[i] != '-');
        }
    }
    assert(s.take(at) =~= left);
    assert(s.skip(at + 1) =~= right);
}

/// **Name round trip.**  A segment file's name parses back to its key.
pub proof fn lemma_segment_name_round_trip(key: FileKey)
    ensures
        parse_segment_name(segment_name(key)) == Some(key),
{
    let name = segment_name(key);
    let stem = name.len() - segment_suffix().len();
    assert(name.skip(stem) =~= segment_suffix());
    assert(name.take(stem) =~= key_text(key));
    lemma_key_round_trip(key);
}

/// Reads the characters of `s` from index `from` up to `to` as a key.
fn parse_key_range(s: &str, from: usize, to: usize) -> (key: Option<FileKey>)
    requires
        from <= to <= s@.len(),
    ensures
        key == parse_key(s@.subrange(from as int, to as int)),
{
    let ghost text = s@.subrange(from as int, to as int);
    let mut at: usize = from;
    while at < to && s.get_char(at) != '-'
        invariant
            from <= at <= to <= s@.len(),
            text == s@.subrange(from as int, to as int),
            forall|k: int| 0 <= k < at - from ==> #[trigger] text[k] != '-',
        decreases to - at,
    {
        at += 1;
    }
    if at == to {
        assert(!exists|i: int| is_first_dash(text, i));
        return None;
    }
    proof {
        assert(is_first_dash(text, at - from));
        let i = choose|i: int| is_first_dash(text, i);
        assert(i == at - from) by {
            if i < at - from {
                assert(text[i] != '-');
            }
        }
        assert(text.take(at - from) =~= s@.subrange(from as int, at as int));
        assert(text.skip(at - from + 1) =~= s@.subrange(at + 1, to as int));
    }
    let timestamp = parse_decimal(s, from, at, u64::MAX);
    let shard_id = parse_decimal(s, at + 1, to, usize::MAX as u64);
    match (timestamp, shard_id) {
        (Some(timestamp), Some(shard_id)) => Some(
            FileKey { timestamp, shard_id: shard_id as usize },
        ),
        _ => None,
    }
}

impl FileKey {
    /// The rendering of the key: `"{timestamp}-{shard_id}"`.
    pub fn to_string(&self) -> (text: String)
        ensures
            text@ == key_text(*self),
    {
        let mut out = String::new();
        push_decimal(&mut out, self.timestamp);
        proof {
            reveal_strlit("-");
        }
        out.append("-");
        assert("-"@ =~= seq!['-']);
        push_decimal(&mut out, self.shard_id as u64);
        assert(out@ =~= key_text(*self));
        out
    }

    /// Reads a key from its rendering.
    ///
    /// The string is split at its first dash; each side is an optional `+`
    /// followed by digits and has to fit its field.  Anything else is an
    /// `InvalidKey`.
    pub fn from_str(s: &str) -> (result: Result<FileKey, StoreError>)
        ensures
            result == match parse_key(s@) {
                Some(key) => Ok::<FileKey, StoreError>(key),
                None => Err(StoreError::InvalidKey),
            },
    {
        let len = s.unicode_len();
        assert(s@.subrange(0, len as int) =~= s@);
        match parse_key_range(s, 0, len) {
            Some(key) => Ok(key),
            None => Err(StoreError::InvalidKey),
        }
    }

    /// The name of the key's segment file: `"{timestamp}-{shard_id}.blocks"`.
    pub fn file_name(&self) -> (name: String)
        ensures
            name@ == segment_name(*self),
    {
        let mut out = self.to_string();
        proof {
            reveal_strlit(".blocks");
        }
        out.append(".blocks");
        assert(".blocks"@ =~= segment_suffix());
        out
    }

    /// Reads a key from the name of a segment file.  A name that does not
    /// end in `.blocks`, or whose stem is not a key, is an `InvalidKey`.
    pub fn from_file_name(name: &str) -> (result: Result<FileKey, StoreError>)
        ensures
            result == match parse_segment_name(name@) {
                Some(key) => Ok::<FileKey, StoreError>(key),
                None => Err(StoreError::InvalidKey),
            },
    {
        let len = name.unicode_len();
        if len < 7 {
            return Err(StoreError::InvalidKey);
        }
        let stem = len - 7;
        let ghost tail = name@.skip(stem as int);
        if name.get_char(stem) != '.' || name.get_char(stem + 1) != 'b' || name.get_char(stem + 2)
            != 'l' || name.get_char(stem + 3) != 'o' || name.get_char(stem + 4) != 'c'
            || name.get_char(stem + 5) != 'k' || name.get_char(stem + 6) != 's' {
            assert(tail[0] == name@[stem + 0]);
            assert(tail[1] == name@[stem + 1]);
            assert(tail[2] == name@[stem + 2]);
            assert(tail[3] == name@[stem + 3]);
            assert(tail[4] == name@[stem + 4]);
            assert(tail[5] == name@[stem + 5]);
            assert(tail[6] == name@[stem + 6]);
            return Err(StoreError::InvalidKey);
        }
        assert(tail =~= segment_suffix());
        assert(name@.take(stem as int) =~= name@.subrange(0, stem as int));
        match parse_key_range(name, 0, stem) {
            Some(key) => Ok(key),
            None => Err(StoreError::InvalidKey),
        }
    }

    /// The bytes the key is hashed from.
    pub fn hash_bytes(&self) -> (bytes: Vec<u8>)
        ensures
            bytes@ == hash_input(*self),
    {
        let t = self.timestamp;
        let s: u64 = self.shard_id as u64 % 0x1_0000_0000;
        let mut out: Vec<u8> = Vec::new();
        out.push((t / 0x100_0000_0000_0000) as u8);
        out.push((t / 0x1_0000_0000_0000 % 256) as u8);
        out.push((t / 0x100_0000_0000 % 256) as u8);
        out.push((t / 0x1_0000_0000 % 256) as u8);
        out.push((t / 0x100_0000 % 256) as u8);
        out.push((t / 0x1_0000 % 256) as u8);
        out.push((t / 0x100 % 256) as u8);
        out.push((t % 256) as u8);
        out.push((s / 0x100_0000) as u8);
        out.push((s / 0x1_0000 % 256) as u8);
        out.push((s / 0x100 % 256) as u8);
        out.push((s % 256) as u8);
        assert(out@ =~= hash_input(*self));
        out
    }
}

impl FileKey {
    /// The key's hash: what it is known by in the metastore.
    pub open spec fn hash_spec(self) -> u64 {
        fnv1a(hash_input(self))
    }

    /// The key's hash, the FNV-1a hash of its hash bytes: what it is known
    /// by in the metastore.
    pub fn to_hash(&self) -> (hash: u64)
        ensures
            hash == self.hash_spec(),
    {
        let bytes = self.hash_bytes();
        hash_of(bytes.as_slice())
    }
}

/// A file name joined to a base directory: the bare name where the base is
/// empty, the base and the name where the base ends in a separator, and
/// otherwise the base, a separator and the name.
pub open spec fn joined_path(base: Seq<char>, name: Seq<char>) -> Seq<char> {
    if base.len() == 0 {
        name
    } else if base.last() == '/' {
        base + name
    } else {
        base + seq!['/'] + name
    }
}

/// The path of the segment file with the given key inside the directory
/// `base`.
pub open spec fn segment_path_spec(base: Seq<char>, key: FileKey) -> Seq<char> {
    joined_path(base, segment_name(key))
}

/// The path of the segment file with the given key inside the directory
/// `base`.  An empty base gives the bare file name, and a base that ends in
/// a separator gets no second one.
pub fn segment_path(base: &str, key: FileKey) -> (path: String)
    ensures
        path@ == segment_path_spec(base@, key),
{
    let name = key.file_name();
    let len = base.unicode_len();
    if len == 0 {
        return name;
    }
    let mut out = String::from_str(base);
    if base.get_char(len - 1) != '/' {
        proof {
            reveal_strlit("/");
        }
        out.append("/");
        assert("/"@ =~= seq!['/']);
    }
    out.append(name.as_str());
    out
}

/// The key and the path of a new segment of shard `shard_id` inside the
/// directory `base_path`, created at `now` seconds since the epoch.  No
/// file is created or touched.
pub fn get_new_segment(base_path: &str, shard_id: usize, now: u64) -> (segment: (FileKey, String))
    ensures
        segment.0 == (FileKey { timestamp: now, shard_id }),
        segment.1@ == segment_path_spec(base_path@, segment.0),
{
    let key = FileKey { timestamp: now, shard_id };
    (key, segment_path(base_path, key))
}

} // verus!
