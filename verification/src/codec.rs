//! The binary layout of a document block.
//!
//! An encoded block is a four-byte magic followed by eight chunks, one per
//! section: the field names, the documents' directories, and the six value
//! columns.  Each column holds the values of one type for the whole block,
//! document after document, so a column can be read without touching the
//! others; the directories say which run of each column belongs to which
//! document.  All integers are little-endian.
//!
//! | section | content |
//! |---|---|
//! | names | a stream of UTF-8 chunks, one per field name |
//! | directories | a stream of chunks, one per document, each a word array of packed entries |
//! | strings | a stream of UTF-8 chunks |
//! | bytes | a stream of chunks |
//! | bools | one byte per value, `0` or `1` |
//! | u64s, i64s, f64s | word arrays |

use crate::document::{
    directory_total, document_views, texts, Document, DocumentBlock, DocumentBlockView,
    DocumentView, FieldType, OffsetInfo,
};
use crate::document::{lemma_null_free, lemma_total_of_prefix, total_within};
use crate::error::StoreError;
use crate::wire::{
    lemma_parse_stream_exact, lemma_parse_words_exact, lemma_stream_item_bound,
    lemma_stream_round_trip, lemma_words_round_trip,
};
use crate::wire::{
    append_bytes, chunk_bytes, parse_stream, parse_words, payloads, read_stream, read_words,
    stream_bytes, words_bytes, write_chunk, write_word,
};
use vstd::prelude::*;
use vstd::slice::{slice_subrange, slice_to_vec};
use vstd::string::StringSliceAdditionalSpecFns;
use vstd::utf8::*;

verus! {

broadcast use vstd::slice::group_slice_axioms;

/// The four bytes every encoded block starts with.
pub open spec fn magic() -> Seq<u8> {
    seq![0x4cu8, 0x4eu8, 0x58u8, 0x42u8]
}

/// The number of sections that follow the magic.
pub open spec fn section_count() -> nat {
    8
}

/// A block taken apart into its sections: names, directories and the six
/// block-wide value columns.
pub struct Columns {
    /// The field names.
    pub names: Seq<Seq<char>>,
    /// One directory per document.
    pub directories: Seq<Seq<OffsetInfo>>,
    /// Every document's text values, document after document.
    pub strings: Seq<Seq<char>>,
    /// Every document's byte values, document after document.
    pub bytes: Seq<Seq<u8>>,
    /// Every document's boolean values, document after document.
    pub bools: Seq<bool>,
    /// Every document's unsigned values, document after document.
    pub u64s: Seq<u64>,
    /// Every document's signed values, document after document.
    pub i64s: Seq<i64>,
    /// Every document's floating point bit patterns, document after document.
    pub f64s: Seq<u64>,
}

/// The parts joined end to end.
pub open spec fn concat<A>(parts: Seq<Seq<A>>) -> Seq<A>
    decreases parts.len(),
{
    if parts.len() == 0 {
        Seq::empty()
    } else {
        concat(parts.drop_last()) + parts.last()
    }
}

/// The total length of the first `n` parts.
pub open spec fn length_before<A>(parts: Seq<Seq<A>>, n: int) -> int
    decreases n,
{
    if n <= 0 {
        0
    } else {
        length_before(parts, n - 1) + parts[n - 1].len()
    }
}

/// Where the values of type `ty` that belong to document `n` start in the
/// column of that type: the sum of what the directories before it account
/// for.
pub open spec fn cursor(directories: Seq<Seq<OffsetInfo>>, ty: FieldType, n: int) -> int
    decreases n,
{
    if n <= 0 {
        0
    } else {
        cursor(directories, ty, n - 1) + directory_total(directories[n - 1], ty)
    }
}

impl Columns {
    /// The length of the column of type `ty`; `Null` has none.
    pub open spec fn column_len(self, ty: FieldType) -> nat {
        match ty {
            FieldType::String => self.strings.len(),
            FieldType::Bytes => self.bytes.len(),
            FieldType::Bool => self.bools.len(),
            FieldType::U64 => self.u64s.len(),
            FieldType::I64 => self.i64s.len(),
            FieldType::F64 => self.f64s.len(),
            FieldType::Null => 0,
        }
    }

    /// The directories account for exactly the columns' contents.
    pub open spec fn fits(self) -> bool {
        forall|ty: FieldType|
            cursor(self.directories, ty, self.directories.len() as int) == #[trigger] self.column_len(
                ty,
            )
    }

    /// Every directory entry names one of the fields.
    pub open spec fn ids_in_range(self) -> bool {
        forall|j: int, i: int|
            0 <= j < self.directories.len() && 0 <= i < self.directories[j].len() ==> (
            #[trigger] self.directories[j][i]).field_id < self.names.len()
    }

    /// Document `j`: its directory and its run of every column.
    pub open spec fn document(self, j: int) -> DocumentView {
        let d = self.directories;
        DocumentView {
            info: d[j],
            strings: self.strings.subrange(
                cursor(d, FieldType::String, j),
                cursor(d, FieldType::String, j + 1),
            ),
            bytes: self.bytes.subrange(
                cursor(d, FieldType::Bytes, j),
                cursor(d, FieldType::Bytes, j + 1),
            ),
            bools: self.bools.subrange(
                cursor(d, FieldType::Bool, j),
                cursor(d, FieldType::Bool, j + 1),
            ),
            u64s: self.u64s.subrange(cursor(d, FieldType::U64, j), cursor(d, FieldType::U64, j + 1)),
            i64s: self.i64s.subrange(cursor(d, FieldType::I64, j), cursor(d, FieldType::I64, j + 1)),
            f64s: self.f64s.subrange(cursor(d, FieldType::F64, j), cursor(d, FieldType::F64, j + 1)),
        }
    }

    /// The block these sections make up, if the directories account for
    /// the columns and name only known fields.
    pub open spec fn assemble(self) -> Option<DocumentBlockView> {
        if self.fits() && self.ids_in_range() {
            Some(
                DocumentBlockView {
                    field_mapping: self.names,
                    docs: Seq::new(self.directories.len(), |j: int| self.document(j)),
                },
            )
        } else {
            None
        }
    }
}

/// The sections of a block.
pub open spec fn columns_of(block: DocumentBlockView) -> Columns {
    let docs = block.docs;
    Columns {
        names: block.field_mapping,
        directories: Seq::new(docs.len(), |j: int| docs[j].info),
        strings: concat(Seq::new(docs.len(), |j: int| docs[j].strings)),
        bytes: concat(Seq::new(docs.len(), |j: int| docs[j].bytes)),
        bools: concat(Seq::new(docs.len(), |j: int| docs[j].bools)),
        u64s: concat(Seq::new(docs.len(), |j: int| docs[j].u64s)),
        i64s: concat(Seq::new(docs.len(), |j: int| docs[j].i64s)),
        f64s: concat(Seq::new(docs.len(), |j: int| docs[j].f64s)),
    }
}

/// The UTF-8 bytes of each text.
pub open spec fn utf8_rows(items: Seq<Seq<char>>) -> Seq<Seq<u8>> {
    Seq::new(items.len(), |i: int| encode_utf8(items[i]))
}

/// A section of texts: a stream of their UTF-8 bytes.
pub open spec fn texts_bytes(items: Seq<Seq<char>>) -> Seq<u8> {
    stream_bytes(utf8_rows(items))
}

/// Reads a section of texts; every chunk must be valid UTF-8.
pub open spec fn parse_texts(bytes: Seq<u8>) -> Option<Seq<Seq<char>>> {
    match parse_stream(bytes) {
        None => None,
        Some(rows) => if forall|i: int| 0 <= i < rows.len() ==> valid_utf8(#[trigger] rows[i]) {
            Some(Seq::new(rows.len(), |i: int| decode_utf8(rows[i])))
        } else {
            None
        },
    }
}

/// The packed words of a directory.
pub open spec fn packed(info: Seq<OffsetInfo>) -> Seq<u64> {
    Seq::new(info.len(), |i: int| info[i].pack_spec())
}

/// One directory on the wire: the word array of its packed entries.
pub open spec fn directory_bytes(info: Seq<OffsetInfo>) -> Seq<u8> {
    words_bytes(packed(info))
}

/// Reads one directory; every word must unpack to a well-formed entry.
pub open spec fn parse_directory(bytes: Seq<u8>) -> Option<Seq<OffsetInfo>> {
    match parse_words(bytes) {
        None => None,
        Some(words) => if forall|i: int|
            0 <= i < words.len() ==> OffsetInfo::unpack_spec(#[trigger] words[i]) is Some {
            Some(Seq::new(words.len(), |i: int| OffsetInfo::unpack_spec(words[i])->0))
        } else {
            None
        },
    }
}

/// Each directory on the wire.
pub open spec fn directory_rows(directories: Seq<Seq<OffsetInfo>>) -> Seq<Seq<u8>> {
    Seq::new(directories.len(), |j: int| directory_bytes(directories[j]))
}

/// The directories section: a stream with one chunk per document.
pub open spec fn directories_bytes(directories: Seq<Seq<OffsetInfo>>) -> Seq<u8> {
    stream_bytes(directory_rows(directories))
}

/// Reads the directories section.
pub open spec fn parse_directories(bytes: Seq<u8>) -> Option<Seq<Seq<OffsetInfo>>> {
    match parse_stream(bytes) {
        None => None,
        Some(rows) => if forall|j: int|
            0 <= j < rows.len() ==> parse_directory(#[trigger] rows[j]) is Some {
            Some(Seq::new(rows.len(), |j: int| parse_directory(rows[j])->0))
        } else {
            None
        },
    }
}

/// The bools section: one byte per value.
pub open spec fn bools_bytes(values: Seq<bool>) -> Seq<u8> {
    Seq::new(
        values.len(),
        |i: int|
            if values[i] {
                1u8
            } else {
                0u8
            },
    )
}

/// Reads the bools section; every byte must be `0` or `1`.
pub open spec fn parse_bools(bytes: Seq<u8>) -> Option<Seq<bool>> {
    if forall|i: int| 0 <= i < bytes.len() ==> #[trigger] bytes[i] <= 1 {
        Some(Seq::new(bytes.len(), |i: int| bytes[i] == 1))
    } else {
        None
    }
}

/// Signed values as the words that hold their two's complement bits.
pub open spec fn signed_words(values: Seq<i64>) -> Seq<u64> {
    Seq::new(values.len(), |i: int| values[i] as u64)
}

/// Words read as two's complement signed values.
pub open spec fn words_signed(words: Seq<u64>) -> Seq<i64> {
    Seq::new(words.len(), |i: int| words[i] as i64)
}

/// The payloads of the eight sections, in wire order.
pub open spec fn sections_of(columns: Columns) -> Seq<Seq<u8>> {
    seq![
        texts_bytes(columns.names),
        directories_bytes(columns.directories),
        texts_bytes(columns.strings),
        stream_bytes(columns.bytes),
        bools_bytes(columns.bools),
        words_bytes(columns.u64s),
        words_bytes(signed_words(columns.i64s)),
        words_bytes(columns.f64s),
    ]
}

/// Reads the eight sections back into columns.
pub open spec fn parse_sections(sections: Seq<Seq<u8>>) -> Option<Columns> {
    if sections.len() != section_count() {
        None
    } else {
        match (
            parse_texts(sections[0]),
            parse_directories(sections[1]),
            parse_texts(sections[2]),
            parse_stream(sections[3]),
            parse_bools(sections[4]),
            parse_words(sections[5]),
            parse_words(sections[6]),
            parse_words(sections[7]),
        ) {
            (
                Some(names),
                Some(directories),
                Some(strings),
                Some(bytes),
                Some(bools),
                Some(u64s),
                Some(i64_words),
                Some(f64s),
            ) => Some(
                Columns {
                    names,
                    directories,
                    strings,
                    bytes,
                    bools,
                    u64s,
                    i64s: words_signed(i64_words),
                    f64s,
                },
            ),
            _ => None,
        }
    }
}

/// The encoding of a block.
#[verifier::opaque]
pub open spec fn encode_spec(block: DocumentBlockView) -> Seq<u8> {
    magic() + stream_bytes(sections_of(columns_of(block)))
}

/// The block that `bytes` encodes, or `None` when `bytes` is not the
/// encoding of a valid block.
#[verifier::opaque]
pub open spec fn decode_spec(bytes: Seq<u8>) -> Option<DocumentBlockView> {
    if bytes.len() < 4 || bytes.subrange(0, 4) != magic() {
        None
    } else {
        match parse_stream(bytes.skip(4)) {
            None => None,
            Some(sections) => match parse_sections(sections) {
                None => None,
                Some(columns) => columns.assemble(),
            },
        }
    }
}

/// The first `n` parts of a longer sequence have the length they have on
/// their own.
pub proof fn lemma_length_before_prefix<A>(parts: Seq<Seq<A>>, m: int, n: int)
    requires
        0 <= n <= m <= parts.len(),
    ensures
        length_before(parts.take(m), n) == length_before(parts, n),
        length_before(parts, n) >= 0,
    decreases n,
{
    if n > 0 {
        lemma_length_before_prefix(parts, m, n - 1);
    }
}

/// In the joined sequence, part `j` lies between the total length of the
/// parts before it and the total length up to and including it.
pub proof fn lemma_concat_slice<A>(parts: Seq<Seq<A>>, j: int)
    requires
        0 <= j < parts.len(),
    ensures
        concat(parts).len() == length_before(parts, parts.len() as int),
        0 <= length_before(parts, j) <= length_before(parts, j + 1) <= concat(parts).len(),
        concat(parts).subrange(length_before(parts, j), length_before(parts, j + 1)) == parts[j],
    decreases parts.len(),
{
    let n = parts.len() as int;
    let front = parts.drop_last();
    assert(front =~= parts.take(n - 1));
    lemma_length_before_prefix(parts, n - 1, n - 1);
    lemma_concat_len(front);
    if j < n - 1 {
        lemma_concat_slice(front, j);
        lemma_length_before_prefix(parts, n - 1, j);
        lemma_length_before_prefix(parts, n - 1, j + 1);
        assert(concat(parts).subrange(length_before(parts, j), length_before(parts, j + 1))
            =~= concat(front).subrange(length_before(front, j), length_before(front, j + 1)));
    } else {
        assert(concat(parts).subrange(length_before(parts, j), length_before(parts, j + 1))
            =~= parts[j]);
    }
}

/// The joined sequence is as long as all its parts together.
pub proof fn lemma_concat_len<A>(parts: Seq<Seq<A>>)
    ensures
        concat(parts).len() == length_before(parts, parts.len() as int),
    decreases parts.len(),
{
    if parts.len() > 0 {
        let n = parts.len() as int;
        let front = parts.drop_last();
        assert(front =~= parts.take(n - 1));
        lemma_concat_len(front);
        lemma_length_before_prefix(parts, n - 1, n - 1);
    }
}

/// Where every part is as long as its directory says, the cursor of a
/// document is the total length of the parts before it.
pub proof fn lemma_cursor_is_length<A>(
    directories: Seq<Seq<OffsetInfo>>,
    ty: FieldType,
    parts: Seq<Seq<A>>,
    n: int,
)
    requires
        0 <= n <= parts.len(),
        parts.len() == directories.len(),
        forall|j: int|
            0 <= j < parts.len() ==> (#[trigger] parts[j]).len() == directory_total(
                directories[j],
                ty,
            ),
    ensures
        cursor(directories, ty, n) == length_before(parts, n),
    decreases n,
{
    if n > 0 {
        lemma_cursor_is_length(directories, ty, parts, n - 1);
        assert(parts[n - 1].len() == directory_total(directories[n - 1], ty));
    }
}

/// Directories that account for no values of a type leave its cursor at
/// zero.
pub proof fn lemma_cursor_of_nothing(directories: Seq<Seq<OffsetInfo>>, ty: FieldType, n: int)
    requires
        0 <= n <= directories.len(),
        forall|j: int|
            0 <= j < directories.len() ==> directory_total(#[trigger] directories[j], ty) == 0,
    ensures
        cursor(directories, ty, n) == 0,
    decreases n,
{
    if n > 0 {
        lemma_cursor_of_nothing(directories, ty, n - 1);
        assert(directory_total(directories[n - 1], ty) == 0);
    }
}

/// Taking a valid block apart and putting it together again gives the
/// block back.
pub proof fn lemma_assemble_columns(block: DocumentBlockView)
    requires
        block.valid(),
    ensures
        columns_of(block).assemble() == Some(block),
{
    let docs = block.docs;
    let n = docs.len() as int;
    let columns = columns_of(block);
    let d = columns.directories;
    let strings = Seq::new(docs.len(), |j: int| docs[j].strings);
    let bytes = Seq::new(docs.len(), |j: int| docs[j].bytes);
    let bools = Seq::new(docs.len(), |j: int| docs[j].bools);
    let u64s = Seq::new(docs.len(), |j: int| docs[j].u64s);
    let i64s = Seq::new(docs.len(), |j: int| docs[j].i64s);
    let f64s = Seq::new(docs.len(), |j: int| docs[j].f64s);
    assert forall|j: int| 0 <= j < n implies (#[trigger] strings[j]).len() == directory_total(
        d[j],
        FieldType::String,
    ) by {
        assert(docs[j].consistent());
        assert(docs[j].column_len(FieldType::String) == docs[j].strings.len());
    }
    assert forall|j: int| 0 <= j < n implies (#[trigger] bytes[j]).len() == directory_total(
        d[j],
        FieldType::Bytes,
    ) by {
        assert(docs[j].consistent());
        assert(docs[j].column_len(FieldType::Bytes) == docs[j].bytes.len());
    }
    assert forall|j: int| 0 <= j < n implies (#[trigger] bools[j]).len() == directory_total(
        d[j],
        FieldType::Bool,
    ) by {
        assert(docs[j].consistent());
        assert(docs[j].column_len(FieldType::Bool) == docs[j].bools.len());
    }
    assert forall|j: int| 0 <= j < n implies (#[trigger] u64s[j]).len() == directory_total(
        d[j],
        FieldType::U64,
    ) by {
        assert(docs[j].consistent());
        assert(docs[j].column_len(FieldType::U64) == docs[j].u64s.len());
    }
    assert forall|j: int| 0 <= j < n implies (#[trigger] i64s[j]).len() == directory_total(
        d[j],
        FieldType::I64,
    ) by {
        assert(docs[j].consistent());
        assert(docs[j].column_len(FieldType::I64) == docs[j].i64s.len());
    }
    assert forall|j: int| 0 <= j < n implies (#[trigger] f64s[j]).len() == directory_total(
        d[j],
        FieldType::F64,
    ) by {
        assert(docs[j].consistent());
        assert(docs[j].column_len(FieldType::F64) == docs[j].f64s.len());
    }
    assert forall|j: int| 0 <= j < n implies directory_total(#[trigger] d[j], FieldType::Null)
        == 0 by {
        assert(docs[j].consistent());
        assert(docs[j].column_len(FieldType::Null) == 0);
    }
    assert forall|k: int| 0 <= k <= n implies {
        &&& cursor(d, FieldType::String, k) == length_before(strings, k)
        &&& cursor(d, FieldType::Bytes, k) == length_before(bytes, k)
        &&& cursor(d, FieldType::Bool, k) == length_before(bools, k)
        &&& cursor(d, FieldType::U64, k) == length_before(u64s, k)
        &&& cursor(d, FieldType::I64, k) == length_before(i64s, k)
        &&& cursor(d, FieldType::F64, k) == length_before(f64s, k)
        &&& #[trigger] cursor(d, FieldType::Null, k) == 0
    } by {
        lemma_cursor_is_length(d, FieldType::String, strings, k);
        lemma_cursor_is_length(d, FieldType::Bytes, bytes, k);
        lemma_cursor_is_length(d, FieldType::Bool, bools, k);
        lemma_cursor_is_length(d, FieldType::U64, u64s, k);
        lemma_cursor_is_length(d, FieldType::I64, i64s, k);
        lemma_cursor_is_length(d, FieldType::F64, f64s, k);
        lemma_cursor_of_nothing(d, FieldType::Null, k);
    }
    lemma_concat_len(strings);
    lemma_concat_len(bytes);
    lemma_concat_len(bools);
    lemma_concat_len(u64s);
    lemma_concat_len(i64s);
    lemma_concat_len(f64s);
    assert(cursor(d, FieldType::Null, n) == 0);
    assert forall|ty: FieldType| cursor(d, ty, n) == #[trigger] columns.column_len(ty) by {}
    assert(columns.ids_in_range()) by {
        assert forall|j: int, i: int| 0 <= j < d.len() && 0 <= i < d[j].len() implies (
        #[trigger] d[j][i]).field_id < columns.names.len() by {
            assert(docs[j].ids_below(block.field_mapping.len()));
            assert(docs[j].info[i].field_id < block.field_mapping.len());
        }
    }
    let rebuilt = Seq::new(d.len(), |j: int| columns.document(j));
    assert forall|j: int| 0 <= j < n implies rebuilt[j] == docs[j] by {
        assert(cursor(d, FieldType::Null, j) == 0);
        assert(cursor(d, FieldType::Null, j + 1) == 0);
        lemma_concat_slice(strings, j);
        lemma_concat_slice(bytes, j);
        lemma_concat_slice(bools, j);
        lemma_concat_slice(u64s, j);
        lemma_concat_slice(i64s, j);
        lemma_concat_slice(f64s, j);
        assert(strings[j] == docs[j].strings);
        assert(bytes[j] == docs[j].bytes);
        assert(bools[j] == docs[j].bools);
        assert(u64s[j] == docs[j].u64s);
        assert(i64s[j] == docs[j].i64s);
        assert(f64s[j] == docs[j].f64s);
    }
    assert(rebuilt =~= docs);
}

/// A section of texts parses back to its texts.
pub proof fn lemma_texts_round_trip(items: Seq<Seq<char>>)
    requires
        texts_bytes(items).len() <= u64::MAX,
    ensures
        parse_texts(texts_bytes(items)) == Some(items),
{
    broadcast use {encode_utf8_valid_utf8, encode_utf8_decode_utf8};

    let rows = utf8_rows(items);
    lemma_stream_round_trip(rows);
    assert(parse_texts(texts_bytes(items))->0 =~= items);
}

/// A directory of well-formed entries parses back to itself.
pub proof fn lemma_directory_round_trip(info: Seq<OffsetInfo>)
    requires
        forall|i: int| 0 <= i < info.len() ==> (#[trigger] info[i]).well_formed(),
    ensures
        parse_directory(directory_bytes(info)) == Some(info),
{
    let words = packed(info);
    lemma_words_round_trip(words);
    assert forall|i: int| 0 <= i < words.len() implies OffsetInfo::unpack_spec(
        #[trigger] words[i],
    ) == Some(info[i]) by {
        info[i].lemma_pack_round_trip();
    }
    assert(parse_directory(directory_bytes(info))->0 =~= info);
}

/// A directories section of well-formed entries parses back to its
/// directories.
pub proof fn lemma_directories_round_trip(directories: Seq<Seq<OffsetInfo>>)
    requires
        directories_bytes(directories).len() <= u64::MAX,
        forall|j: int, i: int|
            0 <= j < directories.len() && 0 <= i < directories[j].len() ==> (
            #[trigger] directories[j][i]).well_formed(),
    ensures
        parse_directories(directories_bytes(directories)) == Some(directories),
{
    let rows = directory_rows(directories);
    lemma_stream_round_trip(rows);
    assert forall|j: int| 0 <= j < rows.len() implies parse_directory(#[trigger] rows[j]) == Some(
        directories[j],
    ) by {
        lemma_directory_round_trip(directories[j]);
    }
    assert(parse_directories(directories_bytes(directories))->0 =~= directories);
}

/// A bools section parses back to its values.
pub proof fn lemma_bools_round_trip(values: Seq<bool>)
    ensures
        parse_bools(bools_bytes(values)) == Some(values),
{
    assert(parse_bools(bools_bytes(values))->0 =~= values);
}

/// Signed values survive the trip through their two's complement words.
pub proof fn lemma_signed_round_trip(values: Seq<i64>)
    ensures
        words_signed(signed_words(values)) == values,
{
    assert forall|i: int| 0 <= i < values.len() implies (values[i] as u64) as i64
        == values[i] by {
        let v = values[i];
        assert((v as u64) as i64 == v) by (bit_vector);
    }
    assert(words_signed(signed_words(values)) =~= values);
}

/// **Round trip.**  Decoding the encoding of a valid block gives the block
/// back: the field names, every directory and every value array, in order.
///
/// The encoding has to fit the eight-byte lengths of the format, which
/// holds of every block whose encoding fits in memory.
pub proof fn lemma_round_trip(block: DocumentBlockView)
    requires
        block.valid(),
        encode_spec(block).len() <= u64::MAX,
    ensures
        decode_spec(encode_spec(block)) == Some(block),
{
    reveal(encode_spec);
    reveal(decode_spec);
    let columns = columns_of(block);
    let sections = sections_of(columns);
    let bytes = encode_spec(block);
    assert(bytes.subrange(0, 4) =~= magic());
    assert(bytes.skip(4) =~= stream_bytes(sections));
    lemma_stream_round_trip(sections);
    lemma_stream_item_bound(sections, 0);
    lemma_stream_item_bound(sections, 1);
    lemma_stream_item_bound(sections, 2);
    lemma_stream_item_bound(sections, 3);
    lemma_texts_round_trip(columns.names);
    assert forall|j: int, i: int|
        0 <= j < columns.directories.len() && 0 <= i < columns.directories[j].len() implies (
    #[trigger] columns.directories[j][i]).well_formed() by {
        assert(block.docs[j].consistent());
        assert(block.docs[j].column_len(FieldType::Null) == 0);
        lemma_null_free(block.docs[j].info);
    }
    lemma_directories_round_trip(columns.directories);
    lemma_texts_round_trip(columns.strings);
    lemma_stream_round_trip(columns.bytes);
    lemma_bools_round_trip(columns.bools);
    lemma_words_round_trip(columns.u64s);
    lemma_words_round_trip(signed_words(columns.i64s));
    lemma_signed_round_trip(columns.i64s);
    lemma_words_round_trip(columns.f64s);
    assert(parse_sections(sections) == Some(columns));
    lemma_assemble_columns(block);
}

/// A word array of two runs is the word arrays of the runs, one after the
/// other.
pub proof fn lemma_words_append(front: Seq<u64>, back: Seq<u64>)
    ensures
        words_bytes(front + back) == words_bytes(front) + words_bytes(back),
    decreases back.len(),
{
    if back.len() == 0 {
        assert(front + back =~= front);
        assert(words_bytes(front) + words_bytes(back) =~= words_bytes(front));
    } else {
        lemma_words_append(front, back.drop_last());
        assert((front + back).drop_last() =~= front + back.drop_last());
        assert(words_bytes(front + back) =~= words_bytes(front) + words_bytes(back));
    }
}

/// Appends the texts of `values` to a texts section that so far holds
/// `done`.
fn write_texts_run(out: &mut Vec<u8>, values: &Vec<String>, Ghost(done): Ghost<Seq<Seq<char>>>)
    requires
        old(out)@ == texts_bytes(done),
    ensures
        final(out)@ == texts_bytes(done + texts(values@)),
{
    let mut i: usize = 0;
    assert(done + texts(values@).take(0) =~= done);
    while i < values.len()
        invariant
            i <= values.len(),
            out@ == texts_bytes(done + texts(values@).take(i as int)),
        decreases values.len() - i,
    {
        let text = values[i].as_str();
        write_chunk(out, text.as_bytes());
        proof {
            let before = utf8_rows(done + texts(values@).take(i as int));
            let after = utf8_rows(done + texts(values@).take(i + 1));
            assert(after.drop_last() =~= before);
            assert(after.last() == encode_utf8(values@[i as int]@));
        }
        i += 1;
    }
    assert(texts(values@).take(values.len() as int) =~= texts(values@));
}

/// Appends the chunks of `values` to a stream that so far holds `done`.
fn write_payload_run(out: &mut Vec<u8>, values: &Vec<Vec<u8>>, Ghost(done): Ghost<Seq<Seq<u8>>>)
    requires
        old(out)@ == stream_bytes(done),
    ensures
        final(out)@ == stream_bytes(done + payloads(values@)),
{
    let mut i: usize = 0;
    assert(done + payloads(values@).take(0) =~= done);
    while i < values.len()
        invariant
            i <= values.len(),
            out@ == stream_bytes(done + payloads(values@).take(i as int)),
        decreases values.len() - i,
    {
        write_chunk(out, values[i].as_slice());
        proof {
            let before = done + payloads(values@).take(i as int);
            let after = done + payloads(values@).take(i + 1);
            assert(after.drop_last() =~= before);
            assert(after.last() == values@[i as int]@);
        }
        i += 1;
    }
    assert(payloads(values@).take(values.len() as int) =~= payloads(values@));
}

/// Appends the bytes of `values` to a bools section that so far holds
/// `done`.
fn write_bools_run(out: &mut Vec<u8>, values: &Vec<bool>, Ghost(done): Ghost<Seq<bool>>)
    requires
        old(out)@ == bools_bytes(done),
    ensures
        final(out)@ == bools_bytes(done + values@),
{
    let mut i: usize = 0;
    assert(done + values@.take(0) =~= done);
    while i < values.len()
        invariant
            i <= values.len(),
            out@ == bools_bytes(done + values@.take(i as int)),
        decreases values.len() - i,
    {
        let byte: u8 = if values[i] {
            1
        } else {
            0
        };
        out.push(byte);
        assert(out@ =~= bools_bytes(done + values@.take(i + 1)));
        i += 1;
    }
    assert(values@.take(values.len() as int) =~= values@);
}

/// Appends the words of `values` to a word array that so far holds `done`.
fn write_words_run(out: &mut Vec<u8>, values: &Vec<u64>, Ghost(done): Ghost<Seq<u64>>)
    requires
        old(out)@ == words_bytes(done),
    ensures
        final(out)@ == words_bytes(done + values@),
{
    crate::wire::write_words(out, values.as_slice());
    proof {
        lemma_words_append(done, values@);
    }
}

/// Appends the words of the signed `values` to a word array that so far
/// holds the words of `done`.
fn write_signed_run(out: &mut Vec<u8>, values: &Vec<i64>, Ghost(done): Ghost<Seq<i64>>)
    requires
        old(out)@ == words_bytes(signed_words(done)),
    ensures
        final(out)@ == words_bytes(signed_words(done + values@)),
{
    let mut i: usize = 0;
    assert(done + values@.take(0) =~= done);
    while i < values.len()
        invariant
            i <= values.len(),
            out@ == words_bytes(signed_words(done + values@.take(i as int))),
        decreases values.len() - i,
    {
        let word = #[verifier::truncate] (values[i] as u64);
        write_word(out, word);
        proof {
            let before = signed_words(done + values@.take(i as int));
            let after = signed_words(done + values@.take(i + 1));
            assert(after.drop_last() =~= before);
            assert(after.last() == values@[i as int] as u64);
        }
        i += 1;
    }
    assert(values@.take(values.len() as int) =~= values@);
}

/// One directory on the wire.
fn directory_to_bytes(info: &Vec<OffsetInfo>) -> (out: Vec<u8>)
    ensures
        out@ == directory_bytes(info@),
{
    let mut out: Vec<u8> = Vec::new();
    let mut i: usize = 0;
    assert(packed(info@.take(0)) =~= Seq::<u64>::empty());
    while i < info.len()
        invariant
            i <= info.len(),
            out@ == words_bytes(packed(info@.take(i as int))),
        decreases info.len() - i,
    {
        write_word(&mut out, info[i].pack());
        proof {
            let before = packed(info@.take(i as int));
            let after = packed(info@.take(i + 1));
            assert(after.drop_last() =~= before);
            assert(after.last() == info@[i as int].pack_spec());
        }
        i += 1;
    }
    assert(info@.take(info.len() as int) =~= info@);
    out
}

/// The directories of the given documents.
pub open spec fn directories_of(docs: Seq<DocumentView>) -> Seq<Seq<OffsetInfo>> {
    Seq::new(docs.len(), |j: int| docs[j].info)
}

/// Whether every directory entry of every document names a field below
/// `fields`.  Also visits every document, which shows that each is
/// consistent.
fn ids_in_range(docs: &Vec<Document>, fields: usize) -> (ok: bool)
    ensures
        ok == (forall|j: int|
            0 <= j < docs@.len() ==> (#[trigger] document_views(docs@)[j]).ids_below(fields as nat)),
        forall|j: int| 0 <= j < docs@.len() ==> (#[trigger] document_views(docs@)[j]).consistent(),
{
    let mut ok = true;
    let mut j: usize = 0;
    while j < docs.len()
        invariant
            j <= docs.len(),
            ok == (forall|k: int|
                0 <= k < j ==> (#[trigger] document_views(docs@)[k]).ids_below(fields as nat)),
            forall|k: int| 0 <= k < j ==> (#[trigger] document_views(docs@)[k]).consistent(),
        decreases docs.len() - j,
    {
        let doc = &docs[j];
        proof {
            use_type_invariant(doc);
        }
        let info = doc.info();
        let mut i: usize = 0;
        let mut doc_ok = true;
        while i < info.len()
            invariant
                i <= info.len(),
                info@ == doc@.info,
                doc_ok == (forall|k: int| 0 <= k < i ==> (#[trigger] info@[k]).field_id < fields),
            decreases info.len() - i,
        {
            if info[i].field_id as usize >= fields {
                doc_ok = false;
            }
            i += 1;
        }
        assert(doc_ok == doc@.ids_below(fields as nat));
        assert(document_views(docs@)[j as int] == doc@);
        if !doc_ok {
            ok = false;
        }
        j += 1;
    }
    ok
}

/// The strings section of the given documents.
fn strings_section(docs: &Vec<Document>) -> (out: Vec<u8>)
    ensures
        out@ == texts_bytes(concat(Seq::new(docs@.len(), |j: int| document_views(docs@)[j].strings))),
{
    let ghost parts = Seq::new(docs@.len(), |j: int| document_views(docs@)[j].strings);
    let mut out: Vec<u8> = Vec::new();
    let mut j: usize = 0;
    proof {
        assert(parts.take(0) =~= Seq::<Seq<Seq<char>>>::empty());
        assert(out@ =~= texts_bytes(concat(parts.take(0)))) by {
            assert(utf8_rows(Seq::<Seq<char>>::empty()) =~= Seq::<Seq<u8>>::empty());
        };
    }
    while j < docs.len()
        invariant
            j <= docs.len(),
            parts == Seq::new(docs@.len(), |j: int| document_views(docs@)[j].strings),
            out@ == texts_bytes(concat(parts.take(j as int))),
        decreases docs.len() - j,
    {
        let values = docs[j].strings();
        write_texts_run(&mut out, values, Ghost(concat(parts.take(j as int))));
        proof {
            assert(parts.take(j + 1).drop_last() =~= parts.take(j as int));
            assert(parts.take(j + 1).last() == docs@[j as int]@.strings);
        }
        j += 1;
    }
    assert(parts.take(docs.len() as int) =~= parts);
    out
}

/// The bytes section of the given documents.
fn bytes_section(docs: &Vec<Document>) -> (out: Vec<u8>)
    ensures
        out@ == stream_bytes(concat(Seq::new(docs@.len(), |j: int| document_views(docs@)[j].bytes))),
{
    let ghost parts = Seq::new(docs@.len(), |j: int| document_views(docs@)[j].bytes);
    let mut out: Vec<u8> = Vec::new();
    let mut j: usize = 0;
    proof {
        assert(parts.take(0) =~= Seq::<Seq<Seq<u8>>>::empty());
        assert(out@ =~= stream_bytes(concat(parts.take(0))));
    }
    while j < docs.len()
        invariant
            j <= docs.len(),
            parts == Seq::new(docs@.len(), |j: int| document_views(docs@)[j].bytes),
            out@ == stream_bytes(concat(parts.take(j as int))),
        decreases docs.len() - j,
    {
        let values = docs[j].bytes();
        write_payload_run(&mut out, values, Ghost(concat(parts.take(j as int))));
        proof {
            assert(parts.take(j + 1).drop_last() =~= parts.take(j as int));
            assert(parts.take(j + 1).last() == docs@[j as int]@.bytes);
        }
        j += 1;
    }
    assert(parts.take(docs.len() as int) =~= parts);
    out
}

/// The bools section of the given documents.
fn bools_section(docs: &Vec<Document>) -> (out: Vec<u8>)
    ensures
        out@ == bools_bytes(concat(Seq::new(docs@.len(), |j: int| document_views(docs@)[j].bools))),
{
    let ghost parts = Seq::new(docs@.len(), |j: int| document_views(docs@)[j].bools);
    let mut out: Vec<u8> = Vec::new();
    let mut j: usize = 0;
    proof {
        assert(parts.take(0) =~= Seq::<Seq<bool>>::empty());
        assert(out@ =~= bools_bytes(concat(parts.take(0))));
    }
    while j < docs.len()
        invariant
            j <= docs.len(),
            parts == Seq::new(docs@.len(), |j: int| document_views(docs@)[j].bools),
            out@ == bools_bytes(concat(parts.take(j as int))),
        decreases docs.len() - j,
    {
        let values = docs[j].bools();
        write_bools_run(&mut out, values, Ghost(concat(parts.take(j as int))));
        proof {
            assert(parts.take(j + 1).drop_last() =~= parts.take(j as int));
            assert(parts.take(j + 1).last() == docs@[j as int]@.bools);
        }
        j += 1;
    }
    assert(parts.take(docs.len() as int) =~= parts);
    out
}

/// The u64s section of the given documents.
fn u64s_section(docs: &Vec<Document>) -> (out: Vec<u8>)
    ensures
        out@ == words_bytes(concat(Seq::new(docs@.len(), |j: int| document_views(docs@)[j].u64s))),
{
    let ghost parts = Seq::new(docs@.len(), |j: int| document_views(docs@)[j].u64s);
    let mut out: Vec<u8> = Vec::new();
    let mut j: usize = 0;
    proof {
        assert(parts.take(0) =~= Seq::<Seq<u64>>::empty());
        assert(out@ =~= words_bytes(concat(parts.take(0))));
    }
    while j < docs.len()
        invariant
            j <= docs.len(),
            parts == Seq::new(docs@.len(), |j: int| document_views(docs@)[j].u64s),
            out@ == words_bytes(concat(parts.take(j as int))),
        decreases docs.len() - j,
    {
        let values = docs[j].u64s();
        write_words_run(&mut out, values, Ghost(concat(parts.take(j as int))));
        proof {
            assert(parts.take(j + 1).drop_last() =~= parts.take(j as int));
            assert(parts.take(j + 1).last() == docs@[j as int]@.u64s);
        }
        j += 1;
    }
    assert(parts.take(docs.len() as int) =~= parts);
    out
}

/// The f64s section of the given documents.
fn f64s_section(docs: &Vec<Document>) -> (out: Vec<u8>)
    ensures
        out@ == words_bytes(concat(Seq::new(docs@.len(), |j: int| document_views(docs@)[j].f64s))),
{
    let ghost parts = Seq::new(docs@.len(), |j: int| document_views(docs@)[j].f64s);
    let mut out: Vec<u8> = Vec::new();
    let mut j: usize = 0;
    proof {
        assert(parts.take(0) =~= Seq::<Seq<u64>>::empty());
        assert(out@ =~= words_bytes(concat(parts.take(0))));
    }
    while j < docs.len()
        invariant
            j <= docs.len(),
            parts == Seq::new(docs@.len(), |j: int| document_views(docs@)[j].f64s),
            out@ == words_bytes(concat(parts.take(j as int))),
        decreases docs.len() - j,
    {
        let values = docs[j].f64_bits();
        write_words_run(&mut out, values, Ghost(concat(parts.take(j as int))));
        proof {
            assert(parts.take(j + 1).drop_last() =~= parts.take(j as int));
            assert(parts.take(j + 1).last() == docs@[j as int]@.f64s);
        }
        j += 1;
    }
    assert(parts.take(docs.len() as int) =~= parts);
    out
}

/// The i64s section of the given documents.
fn i64s_section(docs: &Vec<Document>) -> (out: Vec<u8>)
    ensures
        out@ == words_bytes(
            signed_words(concat(Seq::new(docs@.len(), |j: int| document_views(docs@)[j].i64s))),
        ),
{
    let ghost parts = Seq::new(docs@.len(), |j: int| document_views(docs@)[j].i64s);
    let mut out: Vec<u8> = Vec::new();
    let mut j: usize = 0;
    proof {
        assert(parts.take(0) =~= Seq::<Seq<i64>>::empty());
        assert(signed_words(Seq::<i64>::empty()) =~= Seq::<u64>::empty());
    }
    while j < docs.len()
        invariant
            j <= docs.len(),
            parts == Seq::new(docs@.len(), |j: int| document_views(docs@)[j].i64s),
            out@ == words_bytes(signed_words(concat(parts.take(j as int)))),
        decreases docs.len() - j,
    {
        let values = docs[j].i64s();
        write_signed_run(&mut out, values, Ghost(concat(parts.take(j as int))));
        proof {
            assert(parts.take(j + 1).drop_last() =~= parts.take(j as int));
            assert(parts.take(j + 1).last() == docs@[j as int]@.i64s);
        }
        j += 1;
    }
    assert(parts.take(docs.len() as int) =~= parts);
    out
}

/// The names section of the given field names.
fn names_section(names: &Vec<String>) -> (out: Vec<u8>)
    ensures
        out@ == texts_bytes(texts(names@)),
{
    let mut out: Vec<u8> = Vec::new();
    proof {
        assert(utf8_rows(Seq::<Seq<char>>::empty()) =~= Seq::<Seq<u8>>::empty());
    }
    write_texts_run(&mut out, names, Ghost(Seq::empty()));
    assert(Seq::<Seq<char>>::empty() + texts(names@) =~= texts(names@));
    out
}

/// The directories section of the given documents.
fn directories_section(docs: &Vec<Document>) -> (out: Vec<u8>)
    ensures
        out@ == directories_bytes(directories_of(document_views(docs@))),
{
    let ghost rows = directory_rows(directories_of(document_views(docs@)));
    let mut out: Vec<u8> = Vec::new();
    let mut j: usize = 0;
    assert(rows.take(0) =~= Seq::<Seq<u8>>::empty());
    while j < docs.len()
        invariant
            j <= docs.len(),
            rows == directory_rows(directories_of(document_views(docs@))),
            out@ == stream_bytes(rows.take(j as int)),
        decreases docs.len() - j,
    {
        let row = directory_to_bytes(docs[j].info());
        write_chunk(&mut out, row.as_slice());
        proof {
            assert(rows.take(j + 1).drop_last() =~= rows.take(j as int));
            assert(rows.take(j + 1).last() == directory_bytes(docs@[j as int]@.info));
        }
        j += 1;
    }
    assert(rows.take(docs.len() as int) =~= rows);
    out
}

/// Appends section `k` of `sections` to an encoding that so far holds the
/// sections before it.
fn push_section(
    out: &mut Vec<u8>,
    section: &[u8],
    Ghost(sections): Ghost<Seq<Seq<u8>>>,
    Ghost(k): Ghost<int>,
)
    requires
        0 <= k < sections.len(),
        sections[k] == section@,
        old(out)@ == magic() + stream_bytes(sections.take(k)),
    ensures
        final(out)@ == magic() + stream_bytes(sections.take(k + 1)),
{
    write_chunk(out, section);
    proof {
        assert(sections.take(k + 1).drop_last() =~= sections.take(k));
        assert(sections.take(k + 1).last() == section@);
        assert(out@ =~= magic() + stream_bytes(sections.take(k + 1)));
    }
}

/// Encodes a block.
///
/// Fails with `SchemaMismatch`, before producing any bytes, exactly when
/// some directory entry names a field outside the block's field mapping.
/// Otherwise the result is the block's encoding, and it decodes to the
/// block.
pub fn encode(block: &DocumentBlock) -> (result: Result<Vec<u8>, StoreError>)
    ensures
        match result {
            Ok(bytes) => {
                &&& block@.valid()
                &&& bytes@ == encode_spec(block@)
                &&& decode_spec(bytes@) == Some(block@)
            },
            Err(e) => e == StoreError::SchemaMismatch && !block@.ids_in_range(),
        },
{
    proof {
        reveal(encode_spec);
    }
    let names = block.field_mapping();
    let docs = block.docs();
    if !ids_in_range(docs, names.len()) {
        return Err(StoreError::SchemaMismatch);
    }
    let ghost columns = columns_of(block@);
    let ghost sections = sections_of(columns);
    let s0 = names_section(names);
    let s1 = directories_section(docs);
    let s2 = strings_section(docs);
    let s3 = bytes_section(docs);
    let s4 = bools_section(docs);
    let s5 = u64s_section(docs);
    let s6 = i64s_section(docs);
    let s7 = f64s_section(docs);
    proof {
        assert(columns.directories =~= directories_of(document_views(docs@)));
        assert(sections =~= seq![s0@, s1@, s2@, s3@, s4@, s5@, s6@, s7@]);
    }
    let mut out: Vec<u8> = Vec::new();
    out.push(0x4c);
    out.push(0x4e);
    out.push(0x58);
    out.push(0x42);
    assert(out@ =~= magic() + stream_bytes(sections.take(0))) by {
        assert(sections.take(0) =~= Seq::<Seq<u8>>::empty());
    }
    push_section(&mut out, s0.as_slice(), Ghost(sections), Ghost(0));
    push_section(&mut out, s1.as_slice(), Ghost(sections), Ghost(1));
    push_section(&mut out, s2.as_slice(), Ghost(sections), Ghost(2));
    push_section(&mut out, s3.as_slice(), Ghost(sections), Ghost(3));
    push_section(&mut out, s4.as_slice(), Ghost(sections), Ghost(4));
    push_section(&mut out, s5.as_slice(), Ghost(sections), Ghost(5));
    push_section(&mut out, s6.as_slice(), Ghost(sections), Ghost(6));
    push_section(&mut out, s7.as_slice(), Ghost(sections), Ghost(7));
    assert(sections.take(8) =~= sections);
    proof {
        assert(out@.len() == out.len());
        lemma_round_trip(block@);
    }
    Ok(out)
}

/// Wraps [`String::from_utf8`], which accepts exactly the byte sequences
/// that are valid UTF-8 and then yields the text they encode.
#[verifier::external_body]
pub(crate) fn text_from_utf8(bytes: &[u8]) -> (text: Option<String>)
    ensures
        text is Some <==> valid_utf8(bytes@),
        text matches Some(t) ==> t@ == decode_utf8(bytes@),
{
    String::from_utf8(bytes.to_vec()).ok()
}

/// Reads a section of texts.
fn read_texts(bytes: &[u8]) -> (items: Option<Vec<String>>)
    ensures
        match parse_texts(bytes@) {
            None => items is None,
            Some(parsed) => items is Some && texts(items->0@) == parsed,
        },
{
    let rows = match read_stream(bytes) {
        None => {
            return None;
        },
        Some(rows) => rows,
    };
    let ghost raw = payloads(rows@);
    let mut out: Vec<String> = Vec::new();
    let mut i: usize = 0;
    while i < rows.len()
        invariant
            i <= rows.len(),
            raw == payloads(rows@),
            parse_stream(bytes@) == Some(raw),
            out@.len() == i,
            forall|k: int| 0 <= k < i ==> valid_utf8(#[trigger] raw[k]),
            forall|k: int| 0 <= k < i ==> (#[trigger] out@[k])@ == decode_utf8(raw[k]),
        decreases rows.len() - i,
    {
        match text_from_utf8(rows[i].as_slice()) {
            None => {
                assert(!valid_utf8(raw[i as int]));
                return None;
            },
            Some(text) => {
                out.push(text);
            },
        }
        i += 1;
    }
    assert(texts(out@) =~= parse_texts(bytes@)->0);
    Some(out)
}

/// Reads one directory.
fn read_directory(bytes: &[u8]) -> (info: Option<Vec<OffsetInfo>>)
    ensures
        match parse_directory(bytes@) {
            None => info is None,
            Some(parsed) => info is Some && info->0@ == parsed,
        },
{
    let words = match read_words(bytes) {
        None => {
            return None;
        },
        Some(words) => words,
    };
    let mut out: Vec<OffsetInfo> = Vec::new();
    let mut i: usize = 0;
    while i < words.len()
        invariant
            i <= words.len(),
            parse_words(bytes@) == Some(words@),
            out@.len() == i,
            forall|k: int| 0 <= k < i ==> OffsetInfo::unpack_spec(#[trigger] words@[k]) == Some(out@[k]),
        decreases words.len() - i,
    {
        match OffsetInfo::unpack(words[i]) {
            None => {
                return None;
            },
            Some(entry) => {
                out.push(entry);
            },
        }
        i += 1;
    }
    assert(out@ =~= parse_directory(bytes@)->0);
    Some(out)
}

/// The directories held by a vector of entry vectors.
pub open spec fn directory_views(directories: Seq<Vec<OffsetInfo>>) -> Seq<Seq<OffsetInfo>> {
    Seq::new(directories.len(), |j: int| directories[j]@)
}

/// Reads the directories section.
fn read_directories(bytes: &[u8]) -> (directories: Option<Vec<Vec<OffsetInfo>>>)
    ensures
        match parse_directories(bytes@) {
            None => directories is None,
            Some(parsed) => directories is Some && directory_views(directories->0@) == parsed,
        },
{
    let rows = match read_stream(bytes) {
        None => {
            return None;
        },
        Some(rows) => rows,
    };
    let ghost raw = payloads(rows@);
    let mut out: Vec<Vec<OffsetInfo>> = Vec::new();
    let mut j: usize = 0;
    while j < rows.len()
        invariant
            j <= rows.len(),
            raw == payloads(rows@),
            parse_stream(bytes@) == Some(raw),
            out@.len() == j,
            forall|k: int| 0 <= k < j ==> parse_directory(#[trigger] raw[k]) == Some(out@[k]@),
        decreases rows.len() - j,
    {
        match read_directory(rows[j].as_slice()) {
            None => {
                assert(parse_directory(raw[j as int]) is None);
                return None;
            },
            Some(info) => {
                out.push(info);
            },
        }
        j += 1;
    }
    assert(directory_views(out@) =~= parse_directories(bytes@)->0);
    Some(out)
}

/// Reads the bools section.
fn read_bools(bytes: &[u8]) -> (values: Option<Vec<bool>>)
    ensures
        match parse_bools(bytes@) {
            None => values is None,
            Some(parsed) => values is Some && values->0@ == parsed,
        },
{
    let mut out: Vec<bool> = Vec::new();
    let mut i: usize = 0;
    while i < bytes.len()
        invariant
            i <= bytes.len(),
            out@.len() == i,
            forall|k: int| 0 <= k < i ==> #[trigger] bytes@[k] <= 1,
            forall|k: int| 0 <= k < i ==> #[trigger] out@[k] == (bytes@[k] == 1),
        decreases bytes.len() - i,
    {
        let byte = bytes[i];
        if byte > 1 {
            return None;
        }
        out.push(byte == 1);
        i += 1;
    }
    assert(out@ =~= parse_bools(bytes@)->0);
    Some(out)
}

/// Reads a word array as signed values.
fn read_signed(bytes: &[u8]) -> (values: Option<Vec<i64>>)
    ensures
        match parse_words(bytes@) {
            None => values is None,
            Some(parsed) => values is Some && values->0@ == words_signed(parsed),
        },
{
    let words = match read_words(bytes) {
        None => {
            return None;
        },
        Some(words) => words,
    };
    let mut out: Vec<i64> = Vec::new();
    let mut i: usize = 0;
    while i < words.len()
        invariant
            i <= words.len(),
            out@.len() == i,
            forall|k: int| 0 <= k < i ==> #[trigger] out@[k] == words@[k] as i64,
        decreases words.len() - i,
    {
        let value = #[verifier::truncate] (words[i] as i64);
        out.push(value);
        i += 1;
    }
    assert(out@ =~= words_signed(words@));
    Some(out)
}

/// Cursors never move backwards.
pub proof fn lemma_cursor_monotone(directories: Seq<Seq<OffsetInfo>>, ty: FieldType, a: int, b: int)
    requires
        0 <= a <= b,
    ensures
        0 <= cursor(directories, ty, a) <= cursor(directories, ty, b),
    decreases b,
{
    if a < b {
        lemma_cursor_monotone(directories, ty, a, b - 1);
    } else if a > 0 {
        lemma_cursor_monotone(directories, ty, a - 1, a - 1);
    }
}

/// Once a cursor has passed the end of its column, the directories do not
/// fit the columns.
proof fn lemma_overrun(columns: Columns, ty: FieldType, j: int)
    requires
        0 <= j <= columns.directories.len(),
        cursor(columns.directories, ty, j) > columns.column_len(ty),
    ensures
        columns.assemble() is None,
{
    lemma_cursor_monotone(columns.directories, ty, j, columns.directories.len() as int);
    assert(cursor(columns.directories, ty, columns.directories.len() as int) != columns.column_len(
        ty,
    ));
}

/// Copies the texts from index `from` up to `to`.
fn copy_texts(source: &Vec<String>, from: usize, to: usize) -> (out: Vec<String>)
    requires
        from <= to <= source@.len(),
    ensures
        texts(out@) == texts(source@).subrange(from as int, to as int),
{
    let mut out: Vec<String> = Vec::new();
    let mut i: usize = from;
    while i < to
        invariant
            from <= i <= to <= source@.len(),
            out@.len() == i - from,
            forall|k: int| 0 <= k < i - from ==> #[trigger] out@[k] == source@[from + k],
        decreases to - i,
    {
        out.push(source[i].clone());
        i += 1;
    }
    assert(texts(out@) =~= texts(source@).subrange(from as int, to as int));
    out
}

/// Copies the byte vectors from index `from` up to `to`.
fn copy_payloads(source: &Vec<Vec<u8>>, from: usize, to: usize) -> (out: Vec<Vec<u8>>)
    requires
        from <= to <= source@.len(),
    ensures
        payloads(out@) == payloads(source@).subrange(from as int, to as int),
{
    let mut out: Vec<Vec<u8>> = Vec::new();
    let mut i: usize = from;
    while i < to
        invariant
            from <= i <= to <= source@.len(),
            out@.len() == i - from,
            forall|k: int| 0 <= k < i - from ==> (#[trigger] out@[k])@ == source@[from + k]@,
        decreases to - i,
    {
        out.push(slice_to_vec(source[i].as_slice()));
        i += 1;
    }
    assert(payloads(out@) =~= payloads(source@).subrange(from as int, to as int));
    out
}

/// Whether every entry names a field below `fields`.
fn entries_below(info: &Vec<OffsetInfo>, fields: usize) -> (ok: bool)
    ensures
        ok == (forall|i: int| 0 <= i < info@.len() ==> (#[trigger] info@[i]).field_id < fields),
{
    let mut i: usize = 0;
    while i < info.len()
        invariant
            i <= info.len(),
            forall|k: int| 0 <= k < i ==> (#[trigger] info@[k]).field_id < fields,
        decreases info.len() - i,
    {
        if info[i].field_id as usize >= fields {
            return false;
        }
        i += 1;
    }
    true
}

/// Puts the sections of a block together.
fn assemble(
    names: Vec<String>,
    directories: Vec<Vec<OffsetInfo>>,
    strings: Vec<String>,
    bytes: Vec<Vec<u8>>,
    bools: Vec<bool>,
    u64s: Vec<u64>,
    i64s: Vec<i64>,
    f64s: Vec<u64>,
) -> (block: Option<DocumentBlock>)
    ensures
        ({
            let columns = Columns {
                names: texts(names@),
                directories: directory_views(directories@),
                strings: texts(strings@),
                bytes: payloads(bytes@),
                bools: bools@,
                u64s: u64s@,
                i64s: i64s@,
                f64s: f64s@,
            };
            match columns.assemble() {
                None => block is None,
                Some(assembled) => block is Some && block->0@ == assembled,
            }
        }),
{
    let ghost columns = Columns {
        names: texts(names@),
        directories: directory_views(directories@),
        strings: texts(strings@),
        bytes: payloads(bytes@),
        bools: bools@,
        u64s: u64s@,
        i64s: i64s@,
        f64s: f64s@,
    };
    let ghost d = columns.directories;
    let count = directories.len();
    let mut docs: Vec<Document> = Vec::new();
    let mut at_strings: usize = 0;
    let mut at_bytes: usize = 0;
    let mut at_bools: usize = 0;
    let mut at_u64s: usize = 0;
    let mut at_i64s: usize = 0;
    let mut at_f64s: usize = 0;
    let mut j: usize = 0;
    while j < count
        invariant
            j <= count == directories@.len(),
            d == directory_views(directories@),
            columns == (Columns {
                names: texts(names@),
                directories: d,
                strings: texts(strings@),
                bytes: payloads(bytes@),
                bools: bools@,
                u64s: u64s@,
                i64s: i64s@,
                f64s: f64s@,
            }),
            at_strings == cursor(d, FieldType::String, j as int) <= strings@.len(),
            at_bytes == cursor(d, FieldType::Bytes, j as int) <= bytes@.len(),
            at_bools == cursor(d, FieldType::Bool, j as int) <= bools@.len(),
            at_u64s == cursor(d, FieldType::U64, j as int) <= u64s@.len(),
            at_i64s == cursor(d, FieldType::I64, j as int) <= i64s@.len(),
            at_f64s == cursor(d, FieldType::F64, j as int) <= f64s@.len(),
            cursor(d, FieldType::Null, j as int) == 0,
            forall|k: int, i: int|
                0 <= k < j && 0 <= i < d[k].len() ==> (#[trigger] d[k][i]).field_id < names@.len(),
            docs@.len() == j,
            forall|k: int| 0 <= k < j ==> (#[trigger] docs@[k])@ == columns.document(k),
        decreases count - j,
    {
        let info = &directories[j];
        assert(d[j as int] == info@);
        if !entries_below(info, names.len()) {
            return None;
        }
        let n_strings = total_within(info.as_slice(), FieldType::String, strings.len() - at_strings);
        let n_bytes = total_within(info.as_slice(), FieldType::Bytes, bytes.len() - at_bytes);
        let n_bools = total_within(info.as_slice(), FieldType::Bool, bools.len() - at_bools);
        let n_u64s = total_within(info.as_slice(), FieldType::U64, u64s.len() - at_u64s);
        let n_i64s = total_within(info.as_slice(), FieldType::I64, i64s.len() - at_i64s);
        let n_f64s = total_within(info.as_slice(), FieldType::F64, f64s.len() - at_f64s);
        let n_nulls = total_within(info.as_slice(), FieldType::Null, 0);
        proof {
            assert(columns.column_len(FieldType::String) == strings@.len());
            assert(columns.column_len(FieldType::Bytes) == bytes@.len());
            assert(columns.column_len(FieldType::Bool) == bools@.len());
            assert(columns.column_len(FieldType::U64) == u64s@.len());
            assert(columns.column_len(FieldType::I64) == i64s@.len());
            assert(columns.column_len(FieldType::F64) == f64s@.len());
            assert(columns.column_len(FieldType::Null) == 0);
            if n_strings is None {
                lemma_overrun(columns, FieldType::String, j + 1);
            }
            if n_bytes is None {
                lemma_overrun(columns, FieldType::Bytes, j + 1);
            }
            if n_bools is None {
                lemma_overrun(columns, FieldType::Bool, j + 1);
            }
            if n_u64s is None {
                lemma_overrun(columns, FieldType::U64, j + 1);
            }
            if n_i64s is None {
                lemma_overrun(columns, FieldType::I64, j + 1);
            }
            if n_f64s is None {
                lemma_overrun(columns, FieldType::F64, j + 1);
            }
            if n_nulls is None {
                lemma_overrun(columns, FieldType::Null, j + 1);
            }
        }
        if n_strings.is_none() || n_bytes.is_none() || n_bools.is_none() || n_u64s.is_none()
            || n_i64s.is_none() || n_f64s.is_none() || n_nulls.is_none() {
            return None;
        }
        let to_strings = at_strings + n_strings.unwrap();
        let to_bytes = at_bytes + n_bytes.unwrap();
        let to_bools = at_bools + n_bools.unwrap();
        let to_u64s = at_u64s + n_u64s.unwrap();
        let to_i64s = at_i64s + n_i64s.unwrap();
        let to_f64s = at_f64s + n_f64s.unwrap();
        let doc_info = slice_to_vec(info.as_slice());
        let doc_strings = copy_texts(&strings, at_strings, to_strings);
        let doc_bytes = copy_payloads(&bytes, at_bytes, to_bytes);
        let doc_bools = slice_to_vec(slice_subrange(bools.as_slice(), at_bools, to_bools));
        let doc_u64s = slice_to_vec(slice_subrange(u64s.as_slice(), at_u64s, to_u64s));
        let doc_i64s = slice_to_vec(slice_subrange(i64s.as_slice(), at_i64s, to_i64s));
        let doc_f64s = slice_to_vec(slice_subrange(f64s.as_slice(), at_f64s, to_f64s));
        proof {
            let parts = DocumentView {
                info: doc_info@,
                strings: texts(doc_strings@),
                bytes: payloads(doc_bytes@),
                bools: doc_bools@,
                u64s: doc_u64s@,
                i64s: doc_i64s@,
                f64s: doc_f64s@,
            };
            assert(parts == columns.document(j as int));
            assert forall|ty: FieldType| directory_total(parts.info, ty)
                == #[trigger] parts.column_len(ty) by {}
        }
        let doc = Document::from_parts(
            doc_info,
            doc_strings,
            doc_bytes,
            doc_bools,
            doc_u64s,
            doc_i64s,
            doc_f64s,
        );
        docs.push(doc.unwrap());
        at_strings = to_strings;
        at_bytes = to_bytes;
        at_bools = to_bools;
        at_u64s = to_u64s;
        at_i64s = to_i64s;
        at_f64s = to_f64s;
        j += 1;
    }
    proof {
        assert(columns.column_len(FieldType::String) == strings@.len());
        assert(columns.column_len(FieldType::Bytes) == bytes@.len());
        assert(columns.column_len(FieldType::Bool) == bools@.len());
        assert(columns.column_len(FieldType::U64) == u64s@.len());
        assert(columns.column_len(FieldType::I64) == i64s@.len());
        assert(columns.column_len(FieldType::F64) == f64s@.len());
        assert(columns.column_len(FieldType::Null) == 0);
    }
    if at_strings != strings.len() || at_bytes != bytes.len() || at_bools != bools.len()
        || at_u64s != u64s.len() || at_i64s != i64s.len() || at_f64s != f64s.len() {
        return None;
    }
    proof {
        assert forall|ty: FieldType| cursor(d, ty, count as int) == #[trigger] columns.column_len(
            ty,
        ) by {}
        assert(columns.ids_in_range());
        assert(document_views(docs@) =~= Seq::new(d.len(), |k: int| columns.document(k)));
    }
    Some(DocumentBlock::new(names, docs))
}

/// Decodes a block.
///
/// Fails with `CorruptRecord` exactly when `bytes` is not the encoding of a
/// valid block: a wrong magic, a length that runs past the end, bytes left
/// over, text that is not UTF-8, a directory entry that is malformed or
/// names an unknown field, or directories that do not account for the
/// columns.  What decodes is a valid block, and `bytes` is its encoding.
pub fn decode(bytes: &[u8]) -> (result: Result<DocumentBlock, StoreError>)
    ensures
        match result {
            Ok(block) => {
                &&& decode_spec(bytes@) == Some(block@)
                &&& block@.valid()
                &&& encode_spec(block@) == bytes@
            },
            Err(e) => e == StoreError::CorruptRecord && decode_spec(bytes@) is None,
        },
{
    proof {
        reveal(decode_spec);
    }
    if bytes.len() < 4 {
        return Err(StoreError::CorruptRecord);
    }
    if bytes[0] != 0x4c || bytes[1] != 0x4e || bytes[2] != 0x58 || bytes[3] != 0x42 {
        assert(bytes@.subrange(0, 4)[0] == bytes@[0]);
        assert(bytes@.subrange(0, 4)[1] == bytes@[1]);
        assert(bytes@.subrange(0, 4)[2] == bytes@[2]);
        assert(bytes@.subrange(0, 4)[3] == bytes@[3]);
        return Err(StoreError::CorruptRecord);
    }
    assert(bytes@.subrange(0, 4) =~= magic());
    let body = slice_subrange(bytes, 4, bytes.len());
    assert(body@ =~= bytes@.skip(4));
    let sections = match read_stream(body) {
        None => {
            return Err(StoreError::CorruptRecord);
        },
        Some(sections) => sections,
    };
    if sections.len() != 8 {
        return Err(StoreError::CorruptRecord);
    }
    let ghost raw = payloads(sections@);
    let names = read_texts(sections[0].as_slice());
    let directories = read_directories(sections[1].as_slice());
    let strings = read_texts(sections[2].as_slice());
    let blobs = read_stream(sections[3].as_slice());
    let bools = read_bools(sections[4].as_slice());
    let u64s = read_words(sections[5].as_slice());
    let i64s = read_signed(sections[6].as_slice());
    let f64s = read_words(sections[7].as_slice());
    match (names, directories, strings, blobs, bools, u64s, i64s, f64s) {
        (
            Some(names),
            Some(directories),
            Some(strings),
            Some(blobs),
            Some(bools),
            Some(u64s),
            Some(i64s),
            Some(f64s),
        ) => {
            match assemble(names, directories, strings, blobs, bools, u64s, i64s, f64s) {
                Some(block) => {
                    proof {
                        lemma_decode_is_inverse(bytes@);
                    }
                    Ok(block)
                },
                None => Err(StoreError::CorruptRecord),
            }
        },
        _ => Err(StoreError::CorruptRecord),
    }
}

/// What columns assemble to is a valid block.
pub proof fn lemma_assembled_valid(columns: Columns)
    requires
        columns.assemble() is Some,
    ensures
        columns.assemble()->0.valid(),
{
    let block = columns.assemble()->0;
    let d = columns.directories;
    assert forall|j: int| 0 <= j < block.docs.len() implies (#[trigger] block.docs[j]).consistent() by {
        let doc = block.docs[j];
        assert(doc == columns.document(j));
        assert forall|ty: FieldType| directory_total(doc.info, ty) == #[trigger] doc.column_len(
            ty,
        ) by {
            lemma_cursor_monotone(d, ty, j, j + 1);
            lemma_cursor_monotone(d, ty, j + 1, d.len() as int);
            assert(cursor(d, ty, d.len() as int) == columns.column_len(ty));
        }
    }
    assert forall|j: int| 0 <= j < block.docs.len() implies (#[trigger] block.docs[j]).ids_below(
        block.field_mapping.len(),
    ) by {
        let doc = block.docs[j];
        assert(doc == columns.document(j));
        assert forall|i: int| 0 <= i < doc.info.len() implies (#[trigger] doc.info[i]).field_id
            < block.field_mapping.len() by {
            assert(d[j][i].field_id < columns.names.len());
        }
    }
}

/// Cutting a column at the cursors and joining the pieces gives the column
/// back, as far as the cursors reach.
pub proof fn lemma_concat_of_slices<A>(
    column: Seq<A>,
    directories: Seq<Seq<OffsetInfo>>,
    ty: FieldType,
    n: int,
)
    requires
        0 <= n,
        cursor(directories, ty, n) <= column.len(),
    ensures
        concat(
            Seq::new(
                n as nat,
                |j: int| column.subrange(cursor(directories, ty, j), cursor(directories, ty, j + 1)),
            ),
        ) == column.subrange(0, cursor(directories, ty, n)),
    decreases n,
{
    let pieces = Seq::new(
        n as nat,
        |j: int| column.subrange(cursor(directories, ty, j), cursor(directories, ty, j + 1)),
    );
    lemma_cursor_monotone(directories, ty, 0, n);
    if n == 0 {
        assert(concat(pieces) =~= column.subrange(0, 0));
    } else {
        lemma_cursor_monotone(directories, ty, n - 1, n);
        lemma_concat_of_slices(column, directories, ty, n - 1);
        let fewer = Seq::new(
            (n - 1) as nat,
            |j: int| column.subrange(cursor(directories, ty, j), cursor(directories, ty, j + 1)),
        );
        assert(pieces.drop_last() =~= fewer);
        assert(concat(pieces) =~= column.subrange(0, cursor(directories, ty, n)));
    }
}

/// Taking the block that columns assemble to apart gives the columns back.
pub proof fn lemma_columns_of_assembled(columns: Columns)
    requires
        columns.assemble() is Some,
    ensures
        columns_of(columns.assemble()->0) == columns,
{
    let block = columns.assemble()->0;
    let d = columns.directories;
    let n = d.len() as int;
    let docs = block.docs;
    let rebuilt = columns_of(block);
    assert(rebuilt.directories =~= d);
    assert(columns.column_len(FieldType::String) == columns.strings.len());
    assert(columns.column_len(FieldType::Bytes) == columns.bytes.len());
    assert(columns.column_len(FieldType::Bool) == columns.bools.len());
    assert(columns.column_len(FieldType::U64) == columns.u64s.len());
    assert(columns.column_len(FieldType::I64) == columns.i64s.len());
    assert(columns.column_len(FieldType::F64) == columns.f64s.len());
    lemma_concat_of_slices(columns.strings, d, FieldType::String, n);
    lemma_concat_of_slices(columns.bytes, d, FieldType::Bytes, n);
    lemma_concat_of_slices(columns.bools, d, FieldType::Bool, n);
    lemma_concat_of_slices(columns.u64s, d, FieldType::U64, n);
    lemma_concat_of_slices(columns.i64s, d, FieldType::I64, n);
    lemma_concat_of_slices(columns.f64s, d, FieldType::F64, n);
    assert(Seq::new(docs.len(), |j: int| docs[j].strings) =~= Seq::new(
        n as nat,
        |j: int|
            columns.strings.subrange(
                cursor(d, FieldType::String, j),
                cursor(d, FieldType::String, j + 1),
            ),
    ));
    assert(Seq::new(docs.len(), |j: int| docs[j].bytes) =~= Seq::new(
        n as nat,
        |j: int|
            columns.bytes.subrange(cursor(d, FieldType::Bytes, j), cursor(d, FieldType::Bytes, j + 1)),
    ));
    assert(Seq::new(docs.len(), |j: int| docs[j].bools) =~= Seq::new(
        n as nat,
        |j: int|
            columns.bools.subrange(cursor(d, FieldType::Bool, j), cursor(d, FieldType::Bool, j + 1)),
    ));
    assert(Seq::new(docs.len(), |j: int| docs[j].u64s) =~= Seq::new(
        n as nat,
        |j: int|
            columns.u64s.subrange(cursor(d, FieldType::U64, j), cursor(d, FieldType::U64, j + 1)),
    ));
    assert(Seq::new(docs.len(), |j: int| docs[j].i64s) =~= Seq::new(
        n as nat,
        |j: int|
            columns.i64s.subrange(cursor(d, FieldType::I64, j), cursor(d, FieldType::I64, j + 1)),
    ));
    assert(Seq::new(docs.len(), |j: int| docs[j].f64s) =~= Seq::new(
        n as nat,
        |j: int|
            columns.f64s.subrange(cursor(d, FieldType::F64, j), cursor(d, FieldType::F64, j + 1)),
    ));
    assert(rebuilt.strings =~= columns.strings);
    assert(rebuilt.bytes =~= columns.bytes);
    assert(rebuilt.bools =~= columns.bools);
    assert(rebuilt.u64s =~= columns.u64s);
    assert(rebuilt.i64s =~= columns.i64s);
    assert(rebuilt.f64s =~= columns.f64s);
}

/// A section of texts that parses is the section of the texts it parses
/// to.
pub proof fn lemma_parse_texts_exact(bytes: Seq<u8>)
    requires
        parse_texts(bytes) is Some,
    ensures
        texts_bytes(parse_texts(bytes)->0) == bytes,
{
    broadcast use decode_utf8_encode_utf8;

    let rows = parse_stream(bytes)->0;
    lemma_parse_stream_exact(bytes);
    assert(utf8_rows(parse_texts(bytes)->0) =~= rows);
}

/// A directory that parses is the directory bytes of what it parses to.
pub proof fn lemma_parse_directory_exact(bytes: Seq<u8>)
    requires
        parse_directory(bytes) is Some,
    ensures
        directory_bytes(parse_directory(bytes)->0) == bytes,
{
    let words = parse_words(bytes)->0;
    lemma_parse_words_exact(bytes);
    let info = parse_directory(bytes)->0;
    assert forall|i: int| 0 <= i < words.len() implies info[i].pack_spec() == words[i] by {
        OffsetInfo::lemma_unpack_exact(words[i]);
    }
    assert(packed(info) =~= words);
}

/// A directories section that parses is the section of the directories it
/// parses to.
pub proof fn lemma_parse_directories_exact(bytes: Seq<u8>)
    requires
        parse_directories(bytes) is Some,
    ensures
        directories_bytes(parse_directories(bytes)->0) == bytes,
{
    let rows = parse_stream(bytes)->0;
    lemma_parse_stream_exact(bytes);
    let directories = parse_directories(bytes)->0;
    assert forall|j: int| 0 <= j < rows.len() implies directory_bytes(directories[j])
        == rows[j] by {
        lemma_parse_directory_exact(rows[j]);
    }
    assert(directory_rows(directories) =~= rows);
}

/// **Decoding inverts encoding.**  Whatever decodes is the encoding of the
/// block it decodes to: no two byte strings decode to the same block.
pub proof fn lemma_decode_is_inverse(bytes: Seq<u8>)
    requires
        decode_spec(bytes) is Some,
    ensures
        encode_spec(decode_spec(bytes)->0) == bytes,
        decode_spec(bytes)->0.valid(),
{
    reveal(encode_spec);
    reveal(decode_spec);
    let body = bytes.skip(4);
    let sections = parse_stream(body)->0;
    let columns = parse_sections(sections)->0;
    let block = columns.assemble()->0;
    lemma_parse_stream_exact(body);
    lemma_parse_texts_exact(sections[0]);
    lemma_parse_directories_exact(sections[1]);
    lemma_parse_texts_exact(sections[2]);
    lemma_parse_stream_exact(sections[3]);
    assert(bools_bytes(columns.bools) =~= sections[4]);
    lemma_parse_words_exact(sections[5]);
    lemma_parse_words_exact(sections[6]);
    let i64_words = parse_words(sections[6])->0;
    assert(signed_words(columns.i64s) =~= i64_words) by {
        assert forall|i: int| 0 <= i < i64_words.len() implies (i64_words[i] as i64) as u64
            == i64_words[i] by {
            let w = i64_words[i];
            assert((w as i64) as u64 == w) by (bit_vector);
        }
    }
    lemma_parse_words_exact(sections[7]);
    assert(sections_of(columns) =~= sections);
    lemma_columns_of_assembled(columns);
    lemma_assembled_valid(columns);
    assert(bytes =~= magic() + body);
}

} // verus!
