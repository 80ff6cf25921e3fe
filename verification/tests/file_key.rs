use lnx_store::decimal::{parse_decimal, to_decimal};
use lnx_store::error::StoreError;
use lnx_store::file_key::{get_new_segment, hash_of, segment_path, FileKey};

#[test]
fn keys_render_as_timestamp_dash_shard() {
    let key = FileKey { timestamp: 1700000000, shard_id: 3 };
    assert_eq!(key.to_string(), "1700000000-3");
    assert_eq!(FileKey { timestamp: 0, shard_id: 0 }.to_string(), "0-0");
    assert_eq!(
        FileKey { timestamp: u64::MAX, shard_id: 12 }.to_string(),
        "18446744073709551615-12"
    );
}

#[test]
fn rendered_keys_parse_back() {
    let keys = [
        FileKey { timestamp: 0, shard_id: 0 },
        FileKey { timestamp: 1, shard_id: 10 },
        FileKey { timestamp: 1700000000, shard_id: 3 },
        FileKey { timestamp: u64::MAX, shard_id: usize::MAX },
        FileKey { timestamp: 1000000, shard_id: 100 },
    ];
    for key in keys {
        assert_eq!(FileKey::from_str(&key.to_string()), Ok(key));
        assert_eq!(FileKey::from_file_name(&key.file_name()), Ok(key));
    }
}

#[test]
fn keys_parse_as_the_standard_library_reads_integers() {
    let key = FileKey { timestamp: 12, shard_id: 5 };
    assert_eq!(FileKey::from_str("12-5"), Ok(key));
    assert_eq!(FileKey::from_str("+12-+5"), Ok(key));
    assert_eq!(FileKey::from_str("0012-005"), Ok(key));
    for bad in [
        "", "12", "-", "12-", "-5", "1-2-3", "a-1", "1-a", "1 -2", "1- 2", "12-5 ", "+-5", "1-+",
        "18446744073709551616-0", "1--2", "١-2",
    ] {
        assert_eq!(FileKey::from_str(bad), Err(StoreError::InvalidKey), "{:?}", bad);
        let std_reads = bad
            .split_once('-')
            .map(|(t, s)| t.parse::<u64>().is_ok() && s.parse::<usize>().is_ok())
            .unwrap_or(false);
        assert!(!std_reads, "{:?}", bad);
    }
}

#[test]
fn segment_files_are_named_after_their_keys() {
    let key = FileKey { timestamp: 1700000000, shard_id: 3 };
    assert_eq!(key.file_name(), "1700000000-3.blocks");
    assert_eq!(FileKey::from_file_name("1700000000-3.blocks"), Ok(key));
    for bad in ["1700000000-3", "1700000000-3.block", ".blocks", "x.blocks", "1-2.blocks.tmp", "", "1-2.BLOCKS"] {
        assert_eq!(FileKey::from_file_name(bad), Err(StoreError::InvalidKey), "{:?}", bad);
    }
    assert_eq!(segment_path("/tmp/store", key), "/tmp/store/1700000000-3.blocks");
    assert_eq!(segment_path("/tmp/store/", key), "/tmp/store/1700000000-3.blocks");
    assert_eq!(segment_path("", key), "1700000000-3.blocks");
    assert_eq!(segment_path("/", key), "/1700000000-3.blocks");
    assert_eq!(segment_path("store", key), "store/1700000000-3.blocks");
    assert_eq!(segment_path("a//", key), "a//1700000000-3.blocks");
    for base in ["/tmp/store", "/tmp/store/", "", "/", "store", "a//", ".", "../x"] {
        let joined = std::path::Path::new(base).join(key.file_name());
        assert_eq!(Some(segment_path(base, key).as_str()), joined.to_str(), "{:?}", base);
    }
}

#[test]
fn new_segments_carry_the_time_they_were_created_at() {
    let (key, path) = get_new_segment("/tmp/store", 2, 1234);
    assert_eq!(key, FileKey { timestamp: 1234, shard_id: 2 });
    assert_eq!(path, "/tmp/store/1234-2.blocks");
    for base in ["/tmp/store", "/tmp/store/", "", "store"] {
        let (key, path) = get_new_segment(base, 7, 99);
        assert_eq!(key, FileKey { timestamp: 99, shard_id: 7 });
        let joined = std::path::Path::new(base).join(format!("{}-{}.blocks", 99, 7));
        assert_eq!(Some(path.as_str()), joined.to_str());
    }
}

#[test]
fn hash_bytes_are_big_endian_timestamp_then_shard() {
    let key = FileKey { timestamp: 0x0102030405060708, shard_id: 0x0a0b0c0d };
    assert_eq!(key.hash_bytes(), vec![1, 2, 3, 4, 5, 6, 7, 8, 0x0a, 0x0b, 0x0c, 0x0d]);
    let key = FileKey { timestamp: u64::MAX, shard_id: 1 };
    assert_eq!(key.hash_bytes(), vec![255, 255, 255, 255, 255, 255, 255, 255, 0, 0, 0, 1]);
    let mut expected = 7u64.to_be_bytes().to_vec();
    expected.extend_from_slice(&(usize::MAX as u32).to_be_bytes());
    assert_eq!(FileKey { timestamp: 7, shard_id: usize::MAX }.hash_bytes(), expected);
}

#[test]
fn hashes_are_fnv1a() {
    assert_eq!(hash_of(b""), 0xcbf29ce484222325);
    assert_eq!(hash_of(b"a"), 0xaf63dc4c8601ec8c);
    assert_eq!(hash_of(b"foobar"), 0x85944171f73967e8);
    let key = FileKey { timestamp: 5, shard_id: 9 };
    assert_eq!(key.to_hash(), hash_of(&key.hash_bytes()));
    assert_ne!(key.to_hash(), FileKey { timestamp: 5, shard_id: 8 }.to_hash());
}

#[test]
fn decimal_numerals() {
    assert_eq!(to_decimal(0), "0");
    assert_eq!(to_decimal(7), "7");
    assert_eq!(to_decimal(10), "10");
    assert_eq!(to_decimal(12456), "12456");
    assert_eq!(to_decimal(u64::MAX), u64::MAX.to_string());
    assert_eq!(parse_decimal("12456", 0, 5, u64::MAX), Some(12456));
    assert_eq!(parse_decimal("x12456y", 1, 6, u64::MAX), Some(12456));
    assert_eq!(parse_decimal("+7", 0, 2, 7), Some(7));
    assert_eq!(parse_decimal("8", 0, 1, 7), None);
    assert_eq!(parse_decimal("255", 0, 3, 255), Some(255));
    assert_eq!(parse_decimal("256", 0, 3, 255), None);
    assert_eq!(parse_decimal("0000000000000000000000255", 0, 25, 255), Some(255));
    assert_eq!(parse_decimal("18446744073709551615", 0, 20, u64::MAX), Some(u64::MAX));
    assert_eq!(parse_decimal("18446744073709551616", 0, 20, u64::MAX), None);
    assert_eq!(parse_decimal("99999999999999999999", 0, 20, u64::MAX), None);
    assert_eq!(parse_decimal("", 0, 0, u64::MAX), None);
    assert_eq!(parse_decimal("+", 0, 1, u64::MAX), None);
    assert_eq!(parse_decimal("-1", 0, 2, u64::MAX), None);
    assert_eq!(parse_decimal("1a", 0, 2, u64::MAX), None);
}
