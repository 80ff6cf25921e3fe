use lnx_store::codec::{decode, encode};
use lnx_store::document::{Document, DocumentBlock, FieldType, OffsetInfo};
use lnx_store::error::StoreError;

fn sample_document() -> Document {
    Document::new()
        .with_strings(0, vec!["hello".to_string()])
        .unwrap()
        .with_u64s(1, vec![42])
        .unwrap()
}

fn rich_document() -> Document {
    Document::new()
        .with_strings(0, vec!["a".to_string(), "héllo wörld".to_string()])
        .unwrap()
        .with_null(1)
        .with_bytes(2, vec![vec![0, 255, 7], vec![]])
        .unwrap()
        .with_bools(3, vec![true, false, true])
        .unwrap()
        .with_u64s(4, vec![0, u64::MAX])
        .unwrap()
        .with_i64s(5, vec![i64::MIN, -1, 0, i64::MAX])
        .unwrap()
        .with_f64_bits(6, vec![1.5f64.to_bits(), f64::NAN.to_bits(), (-0.0f64).to_bits()])
        .unwrap()
        .with_strings(0, vec!["again".to_string()])
        .unwrap()
}

fn field_names(n: usize) -> Vec<String> {
    (0..n).map(|i| format!("field{}", i)).collect()
}

#[test]
fn block_with_title_and_count_round_trips() {
    let block = DocumentBlock::new(
        vec!["title".to_string(), "count".to_string()],
        vec![sample_document()],
    );
    let bytes = encode(&block).unwrap();
    let decoded = decode(&bytes).unwrap();
    assert_eq!(decoded, block);
    let doc = &decoded.docs()[0];
    assert_eq!(
        doc.info(),
        &vec![
            OffsetInfo { field_id: 0, field_length: 1, field_type: FieldType::String },
            OffsetInfo { field_id: 1, field_length: 1, field_type: FieldType::U64 },
        ]
    );
    assert_eq!(doc.strings(), &vec!["hello".to_string()]);
    assert_eq!(doc.u64s(), &vec![42u64]);
}

#[test]
fn block_of_every_type_round_trips() {
    let block = DocumentBlock::new(
        field_names(7),
        vec![rich_document(), Document::new(), sample_document(), rich_document()],
    );
    let bytes = encode(&block).unwrap();
    let decoded = decode(&bytes).unwrap();
    assert_eq!(decoded, block);
    assert_eq!(decoded.field_mapping(), &field_names(7));
    assert_eq!(decoded.docs().len(), 4);
    let doc = &decoded.docs()[3];
    assert_eq!(doc.i64s(), &vec![i64::MIN, -1, 0, i64::MAX]);
    assert_eq!(doc.bools(), &vec![true, false, true]);
    assert_eq!(doc.bytes(), &vec![vec![0u8, 255, 7], vec![]]);
    assert_eq!(f64::from_bits(doc.f64_bits()[0]), 1.5);
    assert!(f64::from_bits(doc.f64_bits()[1]).is_nan());
    assert_eq!(doc.f64_bits()[2], (-0.0f64).to_bits());
}

#[test]
fn empty_block_round_trips() {
    let block = DocumentBlock::new(vec![], vec![]);
    let bytes = encode(&block).unwrap();
    assert_eq!(bytes.len(), 4 + 8 * 8);
    assert_eq!(decode(&bytes).unwrap(), block);
}

#[test]
fn encoding_has_the_documented_layout() {
    let block = DocumentBlock::new(vec!["a".to_string()], vec![]);
    let bytes = encode(&block).unwrap();
    let mut expected: Vec<u8> = vec![0x4c, 0x4e, 0x58, 0x42];
    expected.extend_from_slice(&9u64.to_le_bytes());
    expected.extend_from_slice(&1u64.to_le_bytes());
    expected.push(b'a');
    for _ in 0..7 {
        expected.extend_from_slice(&0u64.to_le_bytes());
    }
    assert_eq!(bytes, expected);
}

#[test]
fn columns_hold_the_values_of_all_documents() {
    let first = Document::new().with_u64s(0, vec![1, 2]).unwrap();
    let second = Document::new().with_bools(0, vec![true]).unwrap().with_u64s(0, vec![3]).unwrap();
    let block = DocumentBlock::new(vec!["n".to_string()], vec![first, second]);
    let bytes = encode(&block).unwrap();
    let mut expected: Vec<u8> = vec![0x4c, 0x4e, 0x58, 0x42];
    // names
    expected.extend_from_slice(&9u64.to_le_bytes());
    expected.extend_from_slice(&1u64.to_le_bytes());
    expected.push(b'n');
    // directories: two chunks, of one and of two packed entries
    expected.extend_from_slice(&(8u64 + 8 + 8 + 16).to_le_bytes());
    expected.extend_from_slice(&8u64.to_le_bytes());
    expected.extend_from_slice(&(0u64 + (2 << 16) + (3 << 32)).to_le_bytes());
    expected.extend_from_slice(&16u64.to_le_bytes());
    expected.extend_from_slice(&(0u64 + (1 << 16) + (2 << 32)).to_le_bytes());
    expected.extend_from_slice(&(0u64 + (1 << 16) + (3 << 32)).to_le_bytes());
    // strings, bytes
    expected.extend_from_slice(&0u64.to_le_bytes());
    expected.extend_from_slice(&0u64.to_le_bytes());
    // bools
    expected.extend_from_slice(&1u64.to_le_bytes());
    expected.push(1);
    // u64s of both documents, side by side
    expected.extend_from_slice(&24u64.to_le_bytes());
    expected.extend_from_slice(&1u64.to_le_bytes());
    expected.extend_from_slice(&2u64.to_le_bytes());
    expected.extend_from_slice(&3u64.to_le_bytes());
    // i64s, f64s
    expected.extend_from_slice(&0u64.to_le_bytes());
    expected.extend_from_slice(&0u64.to_le_bytes());
    assert_eq!(bytes, expected);
    assert_eq!(decode(&bytes).unwrap(), block);
}

#[test]
fn unknown_field_id_is_a_schema_mismatch() {
    let block = DocumentBlock::new(vec!["title".to_string()], vec![sample_document()]);
    assert_eq!(encode(&block), Err(StoreError::SchemaMismatch));
    let block = DocumentBlock::new(vec![], vec![Document::new().with_null(0)]);
    assert_eq!(encode(&block), Err(StoreError::SchemaMismatch));
}

#[test]
fn garbage_is_a_corrupt_record() {
    assert_eq!(decode(&[]), Err(StoreError::CorruptRecord));
    assert_eq!(decode(b"LNXB"), Err(StoreError::CorruptRecord));
    assert_eq!(decode(b"nope, not a block"), Err(StoreError::CorruptRecord));
}

fn valid_bytes() -> Vec<u8> {
    let block = DocumentBlock::new(field_names(7), vec![rich_document()]);
    encode(&block).unwrap()
}

#[test]
fn damaged_encodings_are_corrupt_records() {
    let good = valid_bytes();
    assert!(decode(&good).is_ok());

    let mut wrong_magic = good.clone();
    wrong_magic[0] = b'X';
    assert_eq!(decode(&wrong_magic), Err(StoreError::CorruptRecord));

    let mut trailing = good.clone();
    trailing.push(0);
    assert_eq!(decode(&trailing), Err(StoreError::CorruptRecord));

    let truncated = &good[..good.len() - 1];
    assert_eq!(decode(truncated), Err(StoreError::CorruptRecord));

    let mut long_length = good.clone();
    long_length[4..12].copy_from_slice(&u64::MAX.to_le_bytes());
    assert_eq!(decode(&long_length), Err(StoreError::CorruptRecord));
}

fn frame(sections: &[Vec<u8>]) -> Vec<u8> {
    let mut out = vec![0x4c, 0x4e, 0x58, 0x42];
    for section in sections {
        out.extend_from_slice(&(section.len() as u64).to_le_bytes());
        out.extend_from_slice(section);
    }
    out
}

fn chunk(payload: &[u8]) -> Vec<u8> {
    let mut out = (payload.len() as u64).to_le_bytes().to_vec();
    out.extend_from_slice(payload);
    out
}

fn empty_sections() -> Vec<Vec<u8>> {
    vec![vec![]; 8]
}

#[test]
fn text_that_is_not_utf8_is_a_corrupt_record() {
    let mut sections = empty_sections();
    sections[0] = chunk(&[0xff, 0xfe]);
    assert_eq!(decode(&frame(&sections)), Err(StoreError::CorruptRecord));
    sections[0] = chunk("ok".as_bytes());
    let block = decode(&frame(&sections)).unwrap();
    assert_eq!(block.field_mapping(), &vec!["ok".to_string()]);
}

#[test]
fn a_bool_byte_above_one_is_a_corrupt_record() {
    let entry = OffsetInfo { field_id: 0, field_length: 1, field_type: FieldType::Bool };
    let mut sections = empty_sections();
    sections[0] = chunk(b"flag");
    sections[1] = chunk(&entry.pack().to_le_bytes());
    sections[4] = vec![2];
    assert_eq!(decode(&frame(&sections)), Err(StoreError::CorruptRecord));
    sections[4] = vec![1];
    let block = decode(&frame(&sections)).unwrap();
    assert_eq!(block.docs()[0].bools(), &vec![true]);
}

#[test]
fn a_directory_that_does_not_account_for_the_columns_is_a_corrupt_record() {
    let entry = OffsetInfo { field_id: 0, field_length: 2, field_type: FieldType::U64 };
    let mut sections = empty_sections();
    sections[0] = chunk(b"n");
    sections[1] = chunk(&entry.pack().to_le_bytes());
    sections[5] = 7u64.to_le_bytes().to_vec();
    // one value where the directory promises two
    assert_eq!(decode(&frame(&sections)), Err(StoreError::CorruptRecord));
    sections[5].extend_from_slice(&8u64.to_le_bytes());
    assert_eq!(decode(&frame(&sections)).unwrap().docs()[0].u64s(), &vec![7, 8]);
    // three values where the directory promises two
    sections[5].extend_from_slice(&9u64.to_le_bytes());
    assert_eq!(decode(&frame(&sections)), Err(StoreError::CorruptRecord));
    // a word array of a ragged length
    sections[5].truncate(13);
    assert_eq!(decode(&frame(&sections)), Err(StoreError::CorruptRecord));
}

#[test]
fn malformed_directory_entries_are_corrupt_records() {
    let mut sections = empty_sections();
    sections[0] = chunk(b"n");
    // a tag that stands for no type
    sections[1] = chunk(&(7u64 << 32).to_le_bytes());
    assert_eq!(decode(&frame(&sections)), Err(StoreError::CorruptRecord));
    // a null entry that claims a value
    sections[1] = chunk(&((6u64 << 32) + (1 << 16)).to_le_bytes());
    assert_eq!(decode(&frame(&sections)), Err(StoreError::CorruptRecord));
    // a field id the mapping does not have
    sections[1] = chunk(&((6u64 << 32) + 1).to_le_bytes());
    assert_eq!(decode(&frame(&sections)), Err(StoreError::CorruptRecord));
    sections[1] = chunk(&(6u64 << 32).to_le_bytes());
    let block = decode(&frame(&sections)).unwrap();
    assert_eq!(
        block.docs()[0].info(),
        &vec![OffsetInfo { field_id: 0, field_length: 0, field_type: FieldType::Null }]
    );
}

#[test]
fn seven_or_nine_sections_are_a_corrupt_record() {
    assert!(decode(&frame(&empty_sections())).is_ok());
    assert_eq!(decode(&frame(&vec![vec![]; 7])), Err(StoreError::CorruptRecord));
    assert_eq!(decode(&frame(&vec![vec![]; 9])), Err(StoreError::CorruptRecord));
}

#[test]
fn entries_pack_into_words() {
    let entry = OffsetInfo { field_id: 1, field_length: 2, field_type: FieldType::U64 };
    assert_eq!(entry.pack(), 1 + 2 * 65536 + 3 * 4294967296);
    assert_eq!(OffsetInfo::unpack(entry.pack()), Some(entry));
    let largest = OffsetInfo { field_id: u16::MAX, field_length: u16::MAX, field_type: FieldType::F64 };
    assert_eq!(largest.pack(), 0x0005_ffff_ffff);
    assert_eq!(OffsetInfo::unpack(0x0005_ffff_ffff), Some(largest));
    assert_eq!(OffsetInfo::unpack(0x0007_0000_0000), None);
    assert_eq!(OffsetInfo::unpack(0x0006_0001_0000), None);
    assert_eq!(OffsetInfo::unpack(u64::MAX), None);
}

#[test]
fn field_types_have_their_tags() {
    let types = [
        FieldType::String,
        FieldType::Bytes,
        FieldType::Bool,
        FieldType::U64,
        FieldType::I64,
        FieldType::F64,
        FieldType::Null,
    ];
    for (tag, ty) in types.iter().enumerate() {
        assert_eq!(ty.tag() as usize, tag);
        assert_eq!(FieldType::from_tag(tag as u64), Some(*ty));
    }
    assert_eq!(FieldType::from_tag(7), None);
}

#[test]
fn directory_lengths_add_up_to_array_lengths() {
    let doc = rich_document();
    let types = [
        FieldType::String,
        FieldType::Bytes,
        FieldType::Bool,
        FieldType::U64,
        FieldType::I64,
        FieldType::F64,
        FieldType::Null,
    ];
    let lengths = [3usize, 2, 3, 2, 4, 3, 0];
    for (ty, expected) in types.iter().zip(lengths) {
        let total: usize = doc
            .info()
            .iter()
            .filter(|entry| entry.field_type == *ty)
            .map(|entry| entry.field_length as usize)
            .sum();
        assert_eq!(total, expected);
        assert_eq!(doc.count_of(*ty), expected);
    }
    assert_eq!(doc.strings().len(), 3);
    assert_eq!(doc.f64_bits().len(), 3);
}

#[test]
fn parts_make_a_document_only_when_the_directory_accounts_for_them() {
    let entry = OffsetInfo { field_id: 0, field_length: 2, field_type: FieldType::U64 };
    let make = |info: Vec<OffsetInfo>, u64s: Vec<u64>| {
        Document::from_parts(info, vec![], vec![], vec![], u64s, vec![], vec![])
    };
    assert!(make(vec![entry], vec![1, 2]).is_some());
    assert!(make(vec![entry], vec![1]).is_none());
    assert!(make(vec![entry], vec![1, 2, 3]).is_none());
    assert!(make(vec![], vec![1]).is_none());
    assert!(make(vec![entry, entry], vec![1, 2, 3, 4]).is_some());
    let null = OffsetInfo { field_id: 0, field_length: 1, field_type: FieldType::Null };
    assert!(make(vec![null], vec![]).is_none());
    assert_eq!(make(vec![], vec![]), Some(Document::new()));
}

#[test]
fn entries_take_their_values_in_directory_order() {
    let doc = rich_document();
    // entry 0: two strings, entry 7: one more string
    assert_eq!(doc.field_range(0), (0, 2));
    assert_eq!(doc.field_range(7), (2, 3));
    // the null entry takes nothing
    assert_eq!(doc.field_range(1), (0, 0));
    assert_eq!(doc.field_range(2), (0, 2));
    assert_eq!(doc.field_range(5), (0, 4));
}

#[test]
fn a_field_holds_at_most_what_an_entry_can_count() {
    let many = vec![false; u16::MAX as usize + 1];
    assert!(Document::new().with_bools(0, many).is_none());
    let most = vec![false; u16::MAX as usize];
    let doc = Document::new().with_bools(0, most).unwrap();
    assert_eq!(doc.info()[0].field_length, u16::MAX);
    let block = DocumentBlock::new(vec!["b".to_string()], vec![doc]);
    assert_eq!(decode(&encode(&block).unwrap()).unwrap(), block);
}
