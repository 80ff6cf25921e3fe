//! The document model: typed columnar records and the directory that ties
//! each field to its values.

use vstd::prelude::*;
use vstd::slice::*;

verus! {

broadcast use vstd::slice::group_slice_axioms;

/// The type of the values one directory entry stands for.
#[derive(Clone, Copy, Debug, PartialEq, Eq, Structural)]
pub enum FieldType {
    /// Text values.
    String,
    /// Raw byte values.
    Bytes,
    /// Boolean values.
    Bool,
    /// Unsigned 64-bit values.
    U64,
    /// Signed 64-bit values.
    I64,
    /// 64-bit floating point values, held as their bit patterns.
    F64,
    /// A placeholder for a field that is present without a value.
    Null,
}

impl FieldType {
    /// The number that stands for this type on the wire.
    pub open spec fn tag_spec(self) -> u16 {
        match self {
            FieldType::String => 0,
            FieldType::Bytes => 1,
            FieldType::Bool => 2,
            FieldType::U64 => 3,
            FieldType::I64 => 4,
            FieldType::F64 => 5,
            FieldType::Null => 6,
        }
    }

    /// The type a wire number stands for, if any.
    pub open spec fn from_tag_spec(tag: u64) -> Option<FieldType> {
        if tag == 0 {
            Some(FieldType::String)
        } else if tag == 1 {
            Some(FieldType::Bytes)
        } else if tag == 2 {
            Some(FieldType::Bool)
        } else if tag == 3 {
            Some(FieldType::U64)
        } else if tag == 4 {
            Some(FieldType::I64)
        } else if tag == 5 {
            Some(FieldType::F64)
        } else if tag == 6 {
            Some(FieldType::Null)
        } else {
            None
        }
    }

    /// The number that stands for this type on the wire.
    pub fn tag(self) -> (tag: u16)
        ensures
            tag == self.tag_spec(),
            FieldType::from_tag_spec(tag as u64) == Some(self),
    {
        match self {
            FieldType::String => 0,
            FieldType::Bytes => 1,
            FieldType::Bool => 2,
            FieldType::U64 => 3,
            FieldType::I64 => 4,
            FieldType::F64 => 5,
            FieldType::Null => 6,
        }
    }

    /// The type a wire number stands for, if any.
    pub fn from_tag(tag: u64) -> (ty: Option<FieldType>)
        ensures
            ty == FieldType::from_tag_spec(tag),
            ty matches Some(t) ==> t.tag_spec() == tag,
            ty is Some <==> tag <= 6,
    {
        if tag == 0 {
            Some(FieldType::String)
        } else if tag == 1 {
            Some(FieldType::Bytes)
        } else if tag == 2 {
            Some(FieldType::Bool)
        } else if tag == 3 {
            Some(FieldType::U64)
        } else if tag == 4 {
            Some(FieldType::I64)
        } else if tag == 5 {
            Some(FieldType::F64)
        } else if tag == 6 {
            Some(FieldType::Null)
        } else {
            None
        }
    }
}

/// One directory entry: which field, how many values, and of what type.
///
/// A field that holds values of several types has one entry per type.
#[derive(Clone, Copy, Debug, PartialEq, Eq, Structural)]
pub struct OffsetInfo {
    /// The field's index in the block's field mapping.
    pub field_id: u16,
    /// The number of values of `field_type` that belong to the field.
    pub field_length: u16,
    /// The type of those values.
    pub field_type: FieldType,
}

impl OffsetInfo {
    /// A `Null` entry stands for no values.
    pub open spec fn well_formed(self) -> bool {
        self.field_type == FieldType::Null ==> self.field_length == 0
    }

    /// The entry as one word: the field id in the low sixteen bits, the
    /// length in the next sixteen, the type's tag above them.
    pub open spec fn pack_spec(self) -> u64 {
        (self.field_id as int + self.field_length as int * 0x1_0000 + self.field_type.tag_spec() as int
            * 0x1_0000_0000) as u64
    }

    /// The entry a word stands for, if it stands for a well-formed one.
    pub open spec fn unpack_spec(word: u64) -> Option<OffsetInfo> {
        match FieldType::from_tag_spec(word / 0x1_0000_0000) {
            None => None,
            Some(field_type) => {
                let entry = OffsetInfo {
                    field_id: (word % 0x1_0000) as u16,
                    field_length: ((word / 0x1_0000) % 0x1_0000) as u16,
                    field_type,
                };
                if entry.well_formed() {
                    Some(entry)
                } else {
                    None
                }
            },
        }
    }

    /// Packing loses nothing: a well-formed entry unpacks to itself, and a
    /// word that unpacks is the packing of what it unpacks to.
    pub proof fn lemma_pack_round_trip(self)
        requires
            self.well_formed(),
        ensures
            OffsetInfo::unpack_spec(self.pack_spec()) == Some(self),
    {
    }

    /// A word that unpacks is the packing of what it unpacks to.
    pub proof fn lemma_unpack_exact(word: u64)
        requires
            OffsetInfo::unpack_spec(word) is Some,
        ensures
            OffsetInfo::unpack_spec(word)->0.pack_spec() == word,
            OffsetInfo::unpack_spec(word)->0.well_formed(),
    {
    }

    /// The entry as one word.
    pub fn pack(self) -> (word: u64)
        ensures
            word == self.pack_spec(),
    {
        let id: u64 = self.field_id as u64;
        let length: u64 = self.field_length as u64;
        let tag: u64 = self.field_type.tag() as u64;
        id + length * 0x1_0000 + tag * 0x1_0000_0000
    }

    /// The entry a word stands for, if it stands for a well-formed one.
    pub fn unpack(word: u64) -> (entry: Option<OffsetInfo>)
        ensures
            entry == OffsetInfo::unpack_spec(word),
    {
        match FieldType::from_tag(word / 0x1_0000_0000) {
            None => None,
            Some(field_type) => {
                let field_id: u16 = (word % 0x1_0000) as u16;
                let field_length: u16 = ((word / 0x1_0000) % 0x1_0000) as u16;
                if field_type == FieldType::Null && field_length != 0 {
                    None
                } else {
                    Some(OffsetInfo { field_id, field_length, field_type })
                }
            },
        }
    }
}

/// The number of values of type `ty` that a directory accounts for: the sum
/// of `field_length` over its entries of that type.
pub open spec fn directory_total(info: Seq<OffsetInfo>, ty: FieldType) -> nat
    decreases info.len(),
{
    if info.len() == 0 {
        0
    } else {
        let last = info.last();
        directory_total(info.drop_last(), ty) + if last.field_type == ty {
            last.field_length as nat
        } else {
            0
        }
    }
}

/// A directory accounts for no more values than any directory it begins.
pub proof fn lemma_total_of_prefix(info: Seq<OffsetInfo>, n: int, ty: FieldType)
    requires
        0 <= n <= info.len(),
    ensures
        directory_total(info.take(n), ty) <= directory_total(info, ty),
    decreases info.len(),
{
    if n == info.len() {
        assert(info.take(n) =~= info);
    } else {
        lemma_total_of_prefix(info.drop_last(), n, ty);
        assert(info.drop_last().take(n) =~= info.take(n));
    }
}

/// Taking one more entry adds that entry's length to its type's total.
pub proof fn lemma_total_step(info: Seq<OffsetInfo>, n: int, ty: FieldType)
    requires
        0 <= n < info.len(),
    ensures
        directory_total(info.take(n + 1), ty) == directory_total(info.take(n), ty) + if info[n].field_type
            == ty {
            info[n].field_length as nat
        } else {
            0
        },
{
    assert(info.take(n + 1).drop_last() =~= info.take(n));
}

/// A directory that accounts for no `Null` values has only well-formed
/// entries.
pub proof fn lemma_null_free(info: Seq<OffsetInfo>)
    requires
        directory_total(info, FieldType::Null) == 0,
    ensures
        forall|i: int| 0 <= i < info.len() ==> (#[trigger] info[i]).well_formed(),
    decreases info.len(),
{
    if info.len() > 0 {
        lemma_null_free(info.drop_last());
        assert forall|i: int| 0 <= i < info.len() implies (#[trigger] info[i]).well_formed() by {
            if i < info.len() - 1 {
                assert(info.drop_last()[i] == info[i]);
            }
        }
    }
}

/// A document as plain sequences.
pub struct DocumentView {
    /// The directory, one entry per (field, type) pair present.
    pub info: Seq<OffsetInfo>,
    /// All text values, in directory order.
    pub strings: Seq<Seq<char>>,
    /// All byte values, in directory order.
    pub bytes: Seq<Seq<u8>>,
    /// All boolean values, in directory order.
    pub bools: Seq<bool>,
    /// All unsigned values, in directory order.
    pub u64s: Seq<u64>,
    /// All signed values, in directory order.
    pub i64s: Seq<i64>,
    /// All floating point values as bit patterns, in directory order.
    pub f64s: Seq<u64>,
}

impl DocumentView {
    /// The number of values of type `ty` the document holds; `Null` has none.
    pub open spec fn column_len(self, ty: FieldType) -> nat {
        match ty {
            FieldType::String => self.strings.len(),
            FieldType::Bytes => self.bytes.len(),
            FieldType::Bool => self.bools.len(),
            FieldType::U64 => self.u64s.len(),
            FieldType::I64 => self.i64s.len(),
            FieldType::F64 => self.f64s.len(),
            FieldType::Null => 0,
        }
    }

    /// The directory accounts for exactly the values held: for every type,
    /// its entries' lengths sum to the length of that type's array.
    pub open spec fn consistent(self) -> bool {
        forall|ty: FieldType| directory_total(self.info, ty) == #[trigger] self.column_len(ty)
    }

    /// Every entry names a field below `fields`.
    pub open spec fn ids_below(self, fields: nat) -> bool {
        forall|i: int| 0 <= i < self.info.len() ==> (#[trigger] self.info[i]).field_id < fields
    }
}

/// The text held by a vector of strings.
pub open spec fn texts(items: Seq<String>) -> Seq<Seq<char>> {
    Seq::new(items.len(), |i: int| items[i]@)
}

/// One record: typed value arrays and the directory that assigns runs of
/// them to fields.
///
/// The directory is read left to right.  Each entry takes the next
/// `field_length` values of its type's array, so the order of the entries
/// fixes where every field's values lie.
#[derive(Debug, PartialEq, Eq)]
pub struct Document {
    info: Vec<OffsetInfo>,
    strings: Vec<String>,
    bytes: Vec<Vec<u8>>,
    bools: Vec<bool>,
    u64s: Vec<u64>,
    i64s: Vec<i64>,
    f64s: Vec<u64>,
}

impl View for Document {
    type V = DocumentView;

    closed spec fn view(&self) -> DocumentView {
        DocumentView {
            info: self.info@,
            strings: texts(self.strings@),
            bytes: crate::wire::payloads(self.bytes@),
            bools: self.bools@,
            u64s: self.u64s@,
            i64s: self.i64s@,
            f64s: self.f64s@,
        }
    }
}

/// Sums the lengths of the entries of type `ty`, giving up as soon as the
/// sum passes `limit`.
pub fn total_within(info: &[OffsetInfo], ty: FieldType, limit: usize) -> (total: Option<usize>)
    ensures
        total is Some <==> directory_total(info@, ty) <= limit,
        total matches Some(n) ==> n == directory_total(info@, ty),
{
    let mut sum: usize = 0;
    let mut i: usize = 0;
    assert(info@.take(0) =~= Seq::<OffsetInfo>::empty());
    while i < info.len()
        invariant
            i <= info.len(),
            sum == directory_total(info@.take(i as int), ty),
            sum <= limit,
        decreases info.len() - i,
    {
        let entry = info[i];
        proof {
            lemma_total_step(info@, i as int, ty);
        }
        if entry.field_type == ty {
            if entry.field_length as usize > limit - sum {
                proof {
                    lemma_total_of_prefix(info@, i + 1, ty);
                }
                return None;
            }
            sum += entry.field_length as usize;
        }
        i += 1;
    }
    assert(info@.take(info.len() as int) =~= info@);
    Some(sum)
}

impl Document {
    /// What holds of every document: its directory accounts for exactly the
    /// values it holds.
    #[verifier::type_invariant]
    pub open spec fn directory_matches(&self) -> bool {
        self@.consistent()
    }

    /// A document with no fields.
    pub fn new() -> (doc: Document)
        ensures
            doc@ == (DocumentView {
                info: Seq::empty(),
                strings: Seq::empty(),
                bytes: Seq::empty(),
                bools: Seq::empty(),
                u64s: Seq::empty(),
                i64s: Seq::empty(),
                f64s: Seq::empty(),
            }),
    {
        let info: Vec<OffsetInfo> = Vec::new();
        let strings: Vec<String> = Vec::new();
        let bytes: Vec<Vec<u8>> = Vec::new();
        proof {
            assert(texts(strings@) =~= Seq::<Seq<char>>::empty());
            assert(crate::wire::payloads(bytes@) =~= Seq::<Seq<u8>>::empty());
        }
        Document {
            info,
            strings,
            bytes,
            bools: Vec::new(),
            u64s: Vec::new(),
            i64s: Vec::new(),
            f64s: Vec::new(),
        }
    }

    /// Builds a document from a directory and the six value arrays.
    ///
    /// The parts make a document exactly when the directory accounts for
    /// them: for every type the entries' lengths sum to the length of that
    /// type's array, and `Null` entries have length zero.
    pub fn from_parts(
        info: Vec<OffsetInfo>,
        strings: Vec<String>,
        bytes: Vec<Vec<u8>>,
        bools: Vec<bool>,
        u64s: Vec<u64>,
        i64s: Vec<i64>,
        f64s: Vec<u64>,
    ) -> (doc: Option<Document>)
        ensures
            ({
                let parts = DocumentView {
                    info: info@,
                    strings: texts(strings@),
                    bytes: crate::wire::payloads(bytes@),
                    bools: bools@,
                    u64s: u64s@,
                    i64s: i64s@,
                    f64s: f64s@,
                };
                &&& doc is Some <==> parts.consistent()
                &&& doc matches Some(d) ==> d@ == parts
            }),
    {
        let ghost parts = DocumentView {
            info: info@,
            strings: texts(strings@),
            bytes: crate::wire::payloads(bytes@),
            bools: bools@,
            u64s: u64s@,
            i64s: i64s@,
            f64s: f64s@,
        };
        let a = total_within(info.as_slice(), FieldType::String, strings.len());
        let b = total_within(info.as_slice(), FieldType::Bytes, bytes.len());
        let c = total_within(info.as_slice(), FieldType::Bool, bools.len());
        let d = total_within(info.as_slice(), FieldType::U64, u64s.len());
        let e = total_within(info.as_slice(), FieldType::I64, i64s.len());
        let f = total_within(info.as_slice(), FieldType::F64, f64s.len());
        let g = total_within(info.as_slice(), FieldType::Null, 0);
        let matches = a == Some(strings.len()) && b == Some(bytes.len()) && c == Some(bools.len())
            && d == Some(u64s.len()) && e == Some(i64s.len()) && f == Some(f64s.len()) && g
            == Some(0);
        proof {
            if matches {
                assert forall|ty: FieldType| directory_total(parts.info, ty)
                    == #[trigger] parts.column_len(ty) by {}
            } else {
                assert(parts.column_len(FieldType::String) == strings.len());
                assert(parts.column_len(FieldType::Bytes) == bytes.len());
                assert(parts.column_len(FieldType::Bool) == bools.len());
                assert(parts.column_len(FieldType::U64) == u64s.len());
                assert(parts.column_len(FieldType::I64) == i64s.len());
                assert(parts.column_len(FieldType::F64) == f64s.len());
                assert(parts.column_len(FieldType::Null) == 0);
            }
        }
        if matches {
            Some(Document { info, strings, bytes, bools, u64s, i64s, f64s })
        } else {
            None
        }
    }

    /// Adds one directory entry and the values it stands for.
    fn extended(
        self,
        entry: OffsetInfo,
        strings: Vec<String>,
        bytes: Vec<Vec<u8>>,
        bools: Vec<bool>,
        u64s: Vec<u64>,
        i64s: Vec<i64>,
        f64s: Vec<u64>,
    ) -> (doc: Document)
        requires
            ({
                let added = DocumentView {
                    info: seq![entry],
                    strings: texts(strings@),
                    bytes: crate::wire::payloads(bytes@),
                    bools: bools@,
                    u64s: u64s@,
                    i64s: i64s@,
                    f64s: f64s@,
                };
                forall|ty: FieldType|
                    #[trigger] added.column_len(ty) == if entry.field_type == ty {
                        entry.field_length as nat
                    } else {
                        0
                    }
            }),
        ensures
            doc@ == (DocumentView {
                info: self@.info.push(entry),
                strings: self@.strings + texts(strings@),
                bytes: self@.bytes + crate::wire::payloads(bytes@),
                bools: self@.bools + bools@,
                u64s: self@.u64s + u64s@,
                i64s: self@.i64s + i64s@,
                f64s: self@.f64s + f64s@,
            }),
    {
        proof {
            use_type_invariant(&self);
        }
        let ghost before = self@;
        let ghost added = DocumentView {
            info: seq![entry],
            strings: texts(strings@),
            bytes: crate::wire::payloads(bytes@),
            bools: bools@,
            u64s: u64s@,
            i64s: i64s@,
            f64s: f64s@,
        };
        let Document {
            info: mut all_info,
            strings: mut all_strings,
            bytes: mut all_bytes,
            bools: mut all_bools,
            u64s: mut all_u64s,
            i64s: mut all_i64s,
            f64s: mut all_f64s,
        } = self;
        let mut strings = strings;
        let mut bytes = bytes;
        let mut bools = bools;
        let mut u64s = u64s;
        let mut i64s = i64s;
        let mut f64s = f64s;
        all_info.push(entry);
        all_strings.append(&mut strings);
        all_bytes.append(&mut bytes);
        all_bools.append(&mut bools);
        all_u64s.append(&mut u64s);
        all_i64s.append(&mut i64s);
        all_f64s.append(&mut f64s);
        proof {
            let after = DocumentView {
                info: all_info@,
                strings: texts(all_strings@),
                bytes: crate::wire::payloads(all_bytes@),
                bools: all_bools@,
                u64s: all_u64s@,
                i64s: all_i64s@,
                f64s: all_f64s@,
            };
            assert(after.strings =~= before.strings + added.strings);
            assert(after.bytes =~= before.bytes + added.bytes);
            assert(after.info.drop_last() =~= before.info);
            assert forall|ty: FieldType| directory_total(after.info, ty)
                == #[trigger] after.column_len(ty) by {
                assert(directory_total(before.info, ty) == before.column_len(ty));
                assert(added.column_len(ty) == if entry.field_type == ty {
                    entry.field_length as nat
                } else {
                    0
                });
            }
        }
        Document {
            info: all_info,
            strings: all_strings,
            bytes: all_bytes,
            bools: all_bools,
            u64s: all_u64s,
            i64s: all_i64s,
            f64s: all_f64s,
        }
    }

    /// Adds a field holding the given text values.  `None` when there are
    /// more values than one entry can count.
    pub fn with_strings(self, field_id: u16, values: Vec<String>) -> (doc: Option<Document>)
        ensures
            doc is Some <==> values@.len() <= u16::MAX,
            doc matches Some(d) ==> d@ == (DocumentView {
                info: self@.info.push(
                    OffsetInfo {
                        field_id,
                        field_length: values@.len() as u16,
                        field_type: FieldType::String,
                    },
                ),
                strings: self@.strings + texts(values@),
                ..self@
            }),
    {
        if values.len() > u16::MAX as usize {
            return None;
        }
        let entry = OffsetInfo {
            field_id,
            field_length: values.len() as u16,
            field_type: FieldType::String,
        };
        let doc = self.extended(
            entry,
            values,
            Vec::new(),
            Vec::new(),
            Vec::new(),
            Vec::new(),
            Vec::new(),
        );
        proof {
            assert(doc@.bytes =~= self@.bytes);
            assert(doc@.bools =~= self@.bools);
            assert(doc@.u64s =~= self@.u64s);
            assert(doc@.i64s =~= self@.i64s);
            assert(doc@.f64s =~= self@.f64s);
        }
        Some(doc)
    }

    /// Adds a field holding the given byte values.  `None` when there are more
    /// values than one entry can count.
    pub fn with_bytes(self, field_id: u16, values: Vec<Vec<u8>>) -> (doc: Option<Document>)
        ensures
            doc is Some <==> values@.len() <= u16::MAX,
            doc matches Some(d) ==> d@ == (DocumentView {
                info: self@.info.push(
                    OffsetInfo {
                        field_id,
                        field_length: values@.len() as u16,
                        field_type: FieldType::Bytes,
                    },
                ),
                bytes: self@.bytes + crate::wire::payloads(values@),
                ..self@
            }),
    {
        if values.len() > u16::MAX as usize {
            return None;
        }
        let entry = OffsetInfo {
            field_id,
            field_length: values.len() as u16,
            field_type: FieldType::Bytes,
        };
        let doc = self.extended(entry, Vec::new(), values, Vec::new(), Vec::new(), Vec::new(), Vec::new());
        proof {
            assert(doc@.strings =~= self@.strings);
            assert(doc@.bools =~= self@.bools);
            assert(doc@.u64s =~= self@.u64s);
            assert(doc@.i64s =~= self@.i64s);
            assert(doc@.f64s =~= self@.f64s);
        }
        Some(doc)
    }

    /// Adds a field holding the given boolean values.  `None` when there are more
    /// values than one entry can count.
    pub fn with_bools(self, field_id: u16, values: Vec<bool>) -> (doc: Option<Document>)
        ensures
            doc is Some <==> values@.len() <= u16::MAX,
            doc matches Some(d) ==> d@ == (DocumentView {
                info: self@.info.push(
                    OffsetInfo {
                        field_id,
                        field_length: values@.len() as u16,
                        field_type: FieldType::Bool,
                    },
                ),
                bools: self@.bools + values@,
                ..self@
            }),
    {
        if values.len() > u16::MAX as usize {
            return None;
        }
        let entry = OffsetInfo {
            field_id,
            field_length: values.len() as u16,
            field_type: FieldType::Bool,
        };
        let doc = self.extended(entry, Vec::new(), Vec::new(), values, Vec::new(), Vec::new(), Vec::new());
        proof {
            assert(doc@.strings =~= self@.strings);
            assert(doc@.bytes =~= self@.bytes);
            assert(doc@.u64s =~= self@.u64s);
            assert(doc@.i64s =~= self@.i64s);
            assert(doc@.f64s =~= self@.f64s);
        }
        Some(doc)
    }

    /// Adds a field holding the given unsigned values.  `None` when there are more
    /// values than one entry can count.
    pub fn with_u64s(self, field_id: u16, values: Vec<u64>) -> (doc: Option<Document>)
        ensures
            doc is Some <==> values@.len() <= u16::MAX,
            doc matches Some(d) ==> d@ == (DocumentView {
                info: self@.info.push(
                    OffsetInfo {
                        field_id,
                        field_length: values@.len() as u16,
                        field_type: FieldType::U64,
                    },
                ),
                u64s: self@.u64s + values@,
                ..self@
            }),
    {
        if values.len() > u16::MAX as usize {
            return None;
        }
        let entry = OffsetInfo {
            field_id,
            field_length: values.len() as u16,
            field_type: FieldType::U64,
        };
        let doc = self.extended(entry, Vec::new(), Vec::new(), Vec::new(), values, Vec::new(), Vec::new());
        proof {
            assert(doc@.strings =~= self@.strings);
            assert(doc@.bytes =~= self@.bytes);
            assert(doc@.bools =~= self@.bools);
            assert(doc@.i64s =~= self@.i64s);
            assert(doc@.f64s =~= self@.f64s);
        }
        Some(doc)
    }

    /// Adds a field holding the given signed values.  `None` when there are more
    /// values than one entry can count.
    pub fn with_i64s(self, field_id: u16, values: Vec<i64>) -> (doc: Option<Document>)
        ensures
            doc is Some <==> values@.len() <= u16::MAX,
            doc matches Some(d) ==> d@ == (DocumentView {
                info: self@.info.push(
                    OffsetInfo {
                        field_id,
                        field_length: values@.len() as u16,
                        field_type: FieldType::I64,
                    },
                ),
                i64s: self@.i64s + values@,
                ..self@
            }),
    {
        if values.len() > u16::MAX as usize {
            return None;
        }
        let entry = OffsetInfo {
            field_id,
            field_length: values.len() as u16,
            field_type: FieldType::I64,
        };
        let doc = self.extended(entry, Vec::new(), Vec::new(), Vec::new(), Vec::new(), values, Vec::new());
        proof {
            assert(doc@.strings =~= self@.strings);
            assert(doc@.bytes =~= self@.bytes);
            assert(doc@.bools =~= self@.bools);
            assert(doc@.u64s =~= self@.u64s);
            assert(doc@.f64s =~= self@.f64s);
        }
        Some(doc)
    }

    /// Adds a field holding the given floating point values, each as its bit pattern.  `None` when there are more
    /// values than one entry can count.
    pub fn with_f64_bits(self, field_id: u16, values: Vec<u64>) -> (doc: Option<Document>)
        ensures
            doc is Some <==> values@.len() <= u16::MAX,
            doc matches Some(d) ==> d@ == (DocumentView {
                info: self@.info.push(
                    OffsetInfo {
                        field_id,
                        field_length: values@.len() as u16,
                        field_type: FieldType::F64,
                    },
                ),
                f64s: self@.f64s + values@,
                ..self@
            }),
    {
        if values.len() > u16::MAX as usize {
            return None;
        }
        let entry = OffsetInfo {
            field_id,
            field_length: values.len() as u16,
            field_type: FieldType::F64,
        };
        let doc = self.extended(entry, Vec::new(), Vec::new(), Vec::new(), Vec::new(), Vec::new(), values);
        proof {
            assert(doc@.strings =~= self@.strings);
            assert(doc@.bytes =~= self@.bytes);
            assert(doc@.bools =~= self@.bools);
            assert(doc@.u64s =~= self@.u64s);
            assert(doc@.i64s =~= self@.i64s);
        }
        Some(doc)
    }

    /// Adds a field that is present without a value.
    pub fn with_null(self, field_id: u16) -> (doc: Document)
        ensures
            doc@ == (DocumentView {
                info: self@.info.push(
                    OffsetInfo { field_id, field_length: 0, field_type: FieldType::Null },
                ),
                ..self@
            }),
    {
        let entry = OffsetInfo { field_id, field_length: 0, field_type: FieldType::Null };
        let doc = self.extended(
            entry,
            Vec::new(),
            Vec::new(),
            Vec::new(),
            Vec::new(),
            Vec::new(),
            Vec::new(),
        );
        proof {
            assert(doc@.strings =~= self@.strings);
            assert(doc@.bytes =~= self@.bytes);
            assert(doc@.bools =~= self@.bools);
            assert(doc@.u64s =~= self@.u64s);
            assert(doc@.i64s =~= self@.i64s);
            assert(doc@.f64s =~= self@.f64s);
        }
        doc
    }

    /// The directory.
    pub fn info(&self) -> (info: &Vec<OffsetInfo>)
        ensures
            info@ == self@.info,
    {
        &self.info
    }

    /// All text values, in directory order.
    pub fn strings(&self) -> (values: &Vec<String>)
        ensures
            texts(values@) == self@.strings,
    {
        &self.strings
    }

    /// All byte values, in directory order.
    pub fn bytes(&self) -> (values: &Vec<Vec<u8>>)
        ensures
            crate::wire::payloads(values@) == self@.bytes,
    {
        &self.bytes
    }

    /// All boolean values, in directory order.
    pub fn bools(&self) -> (values: &Vec<bool>)
        ensures
            values@ == self@.bools,
    {
        &self.bools
    }

    /// All unsigned values, in directory order.
    pub fn u64s(&self) -> (values: &Vec<u64>)
        ensures
            values@ == self@.u64s,
    {
        &self.u64s
    }

    /// All signed values, in directory order.
    pub fn i64s(&self) -> (values: &Vec<i64>)
        ensures
            values@ == self@.i64s,
    {
        &self.i64s
    }

    /// All floating point values as bit patterns, in directory order.
    pub fn f64_bits(&self) -> (values: &Vec<u64>)
        ensures
            values@ == self@.f64s,
    {
        &self.f64s
    }

    /// The number of values of type `ty` the document holds, which is also
    /// what its directory's entries of that type add up to.
    pub fn count_of(&self, ty: FieldType) -> (count: usize)
        ensures
            count == self@.column_len(ty),
            count == directory_total(self@.info, ty),
    {
        proof {
            use_type_invariant(self);
            assert(directory_total(self@.info, ty) == self@.column_len(ty));
        }
        match ty {
            FieldType::String => self.strings.len(),
            FieldType::Bytes => self.bytes.len(),
            FieldType::Bool => self.bools.len(),
            FieldType::U64 => self.u64s.len(),
            FieldType::I64 => self.i64s.len(),
            FieldType::F64 => self.f64s.len(),
            FieldType::Null => 0,
        }
    }

    /// Where the values of directory entry `index` lie in the array of the
    /// entry's type: from `start` up to `end`.
    ///
    /// The start is where the read cursor of that type stands after the
    /// entries before `index`: the sum of their lengths.
    pub fn field_range(&self, index: usize) -> (range: (usize, usize))
        requires
            index < self@.info.len(),
        ensures
            ({
                let entry = self@.info[index as int];
                &&& range.0 == directory_total(self@.info.take(index as int), entry.field_type)
                &&& range.1 == range.0 + entry.field_length
                &&& range.1 <= self@.column_len(entry.field_type)
            }),
    {
        let entry = self.info[index];
        let ty = entry.field_type;
        let limit = self.count_of(ty);
        proof {
            lemma_total_of_prefix(self@.info, index as int, ty);
            lemma_total_of_prefix(self@.info, index + 1, ty);
            lemma_total_step(self@.info, index as int, ty);
        }
        let before = total_within(slice_subrange(self.info.as_slice(), 0, index), ty, limit);
        let start = before.unwrap();
        (start, start + entry.field_length as usize)
    }
}

/// Copies a vector of texts.
fn clone_texts(source: &Vec<String>) -> (out: Vec<String>)
    ensures
        texts(out@) == texts(source@),
{
    let mut out: Vec<String> = Vec::new();
    let mut i: usize = 0;
    while i < source.len()
        invariant
            i <= source.len(),
            out@.len() == i,
            forall|k: int| 0 <= k < i ==> #[trigger] out@[k] == source@[k],
        decreases source.len() - i,
    {
        out.push(source[i].clone());
        i += 1;
    }
    assert(texts(out@) =~= texts(source@));
    out
}

/// Copies a vector of byte vectors.
fn clone_payloads(source: &Vec<Vec<u8>>) -> (out: Vec<Vec<u8>>)
    ensures
        crate::wire::payloads(out@) == crate::wire::payloads(source@),
{
    let mut out: Vec<Vec<u8>> = Vec::new();
    let mut i: usize = 0;
    while i < source.len()
        invariant
            i <= source.len(),
            out@.len() == i,
            forall|k: int| 0 <= k < i ==> (#[trigger] out@[k])@ == source@[k]@,
        decreases source.len() - i,
    {
        out.push(slice_to_vec(source[i].as_slice()));
        i += 1;
    }
    assert(crate::wire::payloads(out@) =~= crate::wire::payloads(source@));
    out
}

impl Clone for Document {
    /// A document with the same directory and the same values.
    fn clone(&self) -> (doc: Document)
        ensures
            doc@ == self@,
    {
        proof {
            use_type_invariant(self);
        }
        let info = slice_to_vec(self.info.as_slice());
        let strings = clone_texts(&self.strings);
        let bytes = clone_payloads(&self.bytes);
        let bools = slice_to_vec(self.bools.as_slice());
        let u64s = slice_to_vec(self.u64s.as_slice());
        let i64s = slice_to_vec(self.i64s.as_slice());
        let f64s = slice_to_vec(self.f64s.as_slice());
        Document { info, strings, bytes, bools, u64s, i64s, f64s }
    }
}

impl Default for Document {
    /// A document with no fields.
    fn default() -> (doc: Document)
        ensures
            doc@.info.len() == 0,
            doc@.consistent(),
    {
        let doc = Document::new();
        proof {
            use_type_invariant(&doc);
        }
        doc
    }
}

/// A block of documents as plain sequences.
pub struct DocumentBlockView {
    /// The field names; a field's id is its index here.
    pub field_mapping: Seq<Seq<char>>,
    /// The documents, in order.
    pub docs: Seq<DocumentView>,
}

impl DocumentBlockView {
    /// Every directory entry of every document names a field of the mapping.
    pub open spec fn ids_in_range(self) -> bool {
        forall|j: int|
            0 <= j < self.docs.len() ==> (#[trigger] self.docs[j]).ids_below(
                self.field_mapping.len(),
            )
    }

    /// Every document's directory accounts for exactly the values it holds.
    pub open spec fn consistent(self) -> bool {
        forall|j: int| 0 <= j < self.docs.len() ==> (#[trigger] self.docs[j]).consistent()
    }

    /// The block can be stored: its documents are consistent and refer only
    /// to fields of the mapping.
    pub open spec fn valid(self) -> bool {
        self.consistent() && self.ids_in_range()
    }
}

/// The views of a vector of documents.
pub open spec fn document_views(docs: Seq<Document>) -> Seq<DocumentView> {
    Seq::new(docs.len(), |j: int| docs[j]@)
}

/// A batch of documents that share one mapping from field names to field
/// ids.
#[derive(Debug, PartialEq, Eq)]
pub struct DocumentBlock {
    field_mapping: Vec<String>,
    docs: Vec<Document>,
}

impl View for DocumentBlock {
    type V = DocumentBlockView;

    closed spec fn view(&self) -> DocumentBlockView {
        DocumentBlockView {
            field_mapping: texts(self.field_mapping@),
            docs: document_views(self.docs@),
        }
    }
}

impl DocumentBlock {
    /// A block of the given documents over the given field names.
    pub fn new(field_mapping: Vec<String>, docs: Vec<Document>) -> (block: DocumentBlock)
        ensures
            block@.field_mapping == texts(field_mapping@),
            block@.docs == document_views(docs@),
    {
        DocumentBlock { field_mapping, docs }
    }

    /// The field names; a field's id is its index here.
    pub fn field_mapping(&self) -> (names: &Vec<String>)
        ensures
            texts(names@) == self@.field_mapping,
    {
        &self.field_mapping
    }

    /// The documents, in order.
    pub fn docs(&self) -> (docs: &Vec<Document>)
        ensures
            document_views(docs@) == self@.docs,
    {
        &self.docs
    }
}

impl Clone for DocumentBlock {
    /// A block with the same field names and the same documents.
    fn clone(&self) -> (block: DocumentBlock)
        ensures
            block@ == self@,
    {
        let field_mapping = clone_texts(&self.field_mapping);
        let mut docs: Vec<Document> = Vec::new();
        let mut j: usize = 0;
        while j < self.docs.len()
            invariant
                j <= self.docs.len(),
                docs@.len() == j,
                forall|k: int| 0 <= k < j ==> (#[trigger] docs@[k])@ == self.docs@[k]@,
            decreases self.docs.len() - j,
        {
            docs.push(self.docs[j].clone());
            j += 1;
        }
        assert(document_views(docs@) =~= document_views(self.docs@));
        DocumentBlock { field_mapping, docs }
    }
}

impl Default for DocumentBlock {
    /// A block without fields and without documents.
    fn default() -> (block: DocumentBlock)
        ensures
            block@.field_mapping.len() == 0,
            block@.docs.len() == 0,
    {
        DocumentBlock { field_mapping: Vec::new(), docs: Vec::new() }
    }
}

} // verus!
