use lnx_store::auth::{
    authorize, authorize_super_user, bearer_token, create_token, granted, modify_permissions,
    permits, same_bytes, AuthError, AuthFlags, AuthManager, Granted, Op,
};
use lnx_store::datetime::from_nanos;
use lnx_store::correction::{correct_sentence, Correction};
use lnx_store::datetime::{DateTime, TimestampResolution};
use lnx_store::document::Document;
use lnx_store::requests::{
    status_message, CreateIndexQueryParams, DocumentOptions, PendingQueries,
};

#[test]
fn timestamps_are_cast_by_their_resolution() {
    assert_eq!(TimestampResolution::Seconds.cast(0), DateTime::from_secs(0));
    assert_eq!(TimestampResolution::Seconds.cast(2).unwrap().as_micros(), 2_000_000);
    assert_eq!(TimestampResolution::Millis.cast(2235).unwrap().as_micros(), 2_235_000);
    assert_eq!(TimestampResolution::Micros.cast(2235).unwrap().as_micros(), 2235);
    assert_eq!(TimestampResolution::Micros.cast(i64::MAX).unwrap().as_micros(), i64::MAX);
    assert_eq!(TimestampResolution::Micros.cast(i64::MIN).unwrap().as_micros(), i64::MIN);
    assert_eq!(TimestampResolution::Millis.cast(-7).unwrap().as_micros(), -7000);
    assert_eq!(TimestampResolution::Millis.cast(i64::MAX), None);
    assert_eq!(TimestampResolution::Seconds.cast(i64::MIN), None);
    let last = i64::MAX / 1_000_000;
    assert_eq!(TimestampResolution::Seconds.cast(last).unwrap().as_micros(), last * 1_000_000);
    assert_eq!(TimestampResolution::Seconds.cast(last + 1), None);
    assert_eq!(DateTime::from_secs(2452352325).unwrap().as_micros(), 2452352325000000);
}

#[test]
fn resolutions_have_their_names() {
    assert_eq!(TimestampResolution::Seconds.to_string(), "unix_seconds");
    assert_eq!(TimestampResolution::Millis.to_string(), "unix_millis");
    assert_eq!(TimestampResolution::Micros.to_string(), "unix_micros");
    assert_eq!(TimestampResolution::Micros.name(), "unix_micros");
}

#[test]
fn permission_flags() {
    assert_eq!(AuthFlags::SEARCH, 1 << 0);
    assert_eq!(AuthFlags::MODIFY_DOCUMENTS, 1 << 1);
    assert_eq!(AuthFlags::MODIFY_INDEXES, 1 << 2);
    assert_eq!(
        granted(AuthFlags::SEARCH | AuthFlags::MODIFY_INDEXES),
        Granted { search: true, index: true, documents: false }
    );
    assert_eq!(granted(0), Granted { search: false, index: false, documents: false });
    assert_eq!(granted(2), Granted { search: false, index: false, documents: true });
}

#[test]
fn operations_change_permissions() {
    assert_eq!(Op::SetFlags.apply(0b111, 0b010), 0b101);
    assert_eq!(Op::SetFlags.apply(0b101, 0b010), 0b101);
    assert_eq!(Op::Unset.apply(0b101, 0b010), 0b111);
    assert_eq!(Op::Unset.apply(0b111, 0b010), 0b111);
    assert_eq!(Op::Unset.apply(0, u32::MAX), u32::MAX);
    assert_eq!(Op::SetFlags.apply(u32::MAX, u32::MAX), 0);
}

#[test]
fn requests_are_authorized_by_their_tokens() {
    assert!(permits(0b011, 0b010));
    assert!(!permits(0b101, 0b010));
    assert!(!permits(0b111, 0));
    assert!(authorize(false, None, 1));
    assert!(!authorize(true, None, 1));
    assert!(authorize(true, Some(3), 1));
    assert!(!authorize(true, Some(2), 1));
    assert_eq!(bearer_token(b"Bearer abc"), Some(&b"abc"[..]));
    assert_eq!(bearer_token(b"Bearer "), Some(&b""[..]));
    assert_eq!(bearer_token(b"Bearer"), None);
    assert!(authorize_super_user(false, None, b"Bearer key"));
    assert!(authorize_super_user(true, Some(b"Bearer key"), b"Bearer key"));
    assert!(!authorize_super_user(true, Some(b"Bearer kez"), b"Bearer key"));
    assert!(!authorize_super_user(true, Some(b"Bearer ke"), b"Bearer key"));
    assert!(!authorize_super_user(true, None, b"Bearer key"));
    assert!(same_bytes(b"", b""));
    assert!(!same_bytes(b"a", b""));
}

#[test]
fn query_parameters_have_their_defaults() {
    assert!(!CreateIndexQueryParams { override_if_exists: None }.overrides());
    assert!(!CreateIndexQueryParams { override_if_exists: Some(false) }.overrides());
    assert!(CreateIndexQueryParams { override_if_exists: Some(true) }.overrides());
    assert!(PendingQueries { wait: None }.waits());
    assert!(PendingQueries { wait: Some(true) }.waits());
    assert!(!PendingQueries { wait: Some(false) }.waits());
    assert_eq!(PendingQueries { wait: None }.upload_message(), "added documents");
    assert_eq!(PendingQueries { wait: Some(false) }.upload_message(), "submitted documents");
}

#[test]
fn select_statuses_get_their_own_message() {
    assert_eq!(status_message(404), Some("route not found"));
    assert_eq!(status_message(405), Some("method not allowed"));
    assert_eq!(status_message(500), Some("internal server error while handling request"));
    assert_eq!(status_message(200), None);
    assert_eq!(status_message(400), None);
    assert_eq!(status_message(501), None);
}

#[test]
fn uploads_become_blocks() {
    let names = vec!["a".to_string()];
    let single = DocumentOptions::Single(Document::new().with_null(0)).into_block(names.clone());
    assert_eq!(single.docs(), &vec![Document::new().with_null(0)]);
    assert_eq!(single.field_mapping(), &names);
    let many = DocumentOptions::Many(vec![Document::new(), Document::new().with_null(0)])
        .into_block(names.clone());
    assert_eq!(many.docs().len(), 2);
    assert_eq!(DocumentOptions::Many(vec![]).into_block(names).docs().len(), 0);
}

#[test]
fn queries_are_corrected_by_the_first_suggestion() {
    assert_eq!(correct_sentence("helo wrld", vec![]), "helo wrld");
    assert_eq!(
        correct_sentence("helo wrld", vec!["hello world".to_string(), "help world".to_string()]),
        "hello world"
    );
    let mut correction = Correction::new();
    assert!(!correction.enabled());
    correction.enable();
    assert!(correction.enabled());
}

#[test]
fn tokens_are_sixty_four_letters_and_digits() {
    let samples: Vec<u8> = (0..64).map(|i| b"AZaz09"[i % 6]).collect();
    let token = create_token(&samples).unwrap();
    assert_eq!(token.len(), 64);
    assert_eq!(token.as_bytes(), &samples[..]);
    assert!(token.starts_with("AZaz09AZ"));
    assert_eq!(create_token(&samples[..63]), None);
    assert_eq!(create_token(&[]), None);
    let mut longer = samples.clone();
    longer.push(b'a');
    assert_eq!(create_token(&longer), None);
    for bad in [b'-', b' ', b'/', b':', b'@', b'[', b'`', b'{', 0, 0x80, 0xff] {
        let mut spoiled = samples.clone();
        spoiled[17] = bad;
        assert_eq!(create_token(&spoiled), None, "{}", bad);
    }
}

#[test]
fn only_registered_tokens_change_permissions() {
    let info = ("alice".to_string(), 0b101u32);
    assert_eq!(
        modify_permissions(Some(&info), 0b100, Op::SetFlags),
        Ok(("alice".to_string(), 0b001))
    );
    assert_eq!(
        modify_permissions(Some(&info), 0b010, Op::Unset),
        Ok(("alice".to_string(), 0b111))
    );
    assert_eq!(modify_permissions(None, 0b010, Op::Unset), Err(AuthError::NotRegistered));
    assert_eq!(AuthError::NotRegistered.to_string(), "this token is not registered");
}

#[test]
fn nanoseconds_are_cut_to_microseconds() {
    assert_eq!(from_nanos(0).unwrap().as_micros(), 0);
    assert_eq!(from_nanos(1_999).unwrap().as_micros(), 1);
    assert_eq!(from_nanos(-1_999).unwrap().as_micros(), -1);
    assert_eq!(from_nanos(-999).unwrap().as_micros(), 0);
    assert_eq!(from_nanos(i64::MAX as i128 * 1000 + 999).unwrap().as_micros(), i64::MAX);
    assert_eq!(from_nanos(i64::MAX as i128 * 1000 + 1000), None);
    assert_eq!(from_nanos(i64::MIN as i128 * 1000 - 999).unwrap().as_micros(), i64::MIN);
    assert_eq!(from_nanos(i64::MIN as i128 * 1000 - 1000), None);
    assert_eq!(from_nanos(i128::MIN), None);
    assert_eq!(from_nanos(i128::MAX), None);
}

#[test]
fn the_manager_keeps_the_registered_tokens() {
    let mut manager = AuthManager::new();
    assert_eq!(manager.get_one("t1"), None);
    manager.load("t1".to_string(), "alice".to_string(), 0b001);
    manager.load("t2".to_string(), "bob".to_string(), 0b110);
    // what is loaded shows once the cache is refreshed
    assert_eq!(manager.get_one("t1"), None);
    manager.refresh();
    assert_eq!(manager.get_one("t1"), Some(("alice".to_string(), 0b001)));
    assert_eq!(manager.get_one("t2"), Some(("bob".to_string(), 0b110)));
    assert_eq!(manager.get_one("t3"), None);

    assert_eq!(manager.modify_permissions("t1", 0b100, Op::Unset), Ok(0b101));
    assert_eq!(manager.get_one("t1"), Some(("alice".to_string(), 0b101)));
    assert_eq!(manager.modify_permissions("t1", 0b001, Op::SetFlags), Ok(0b100));
    assert_eq!(manager.get_one("t1"), Some(("alice".to_string(), 0b100)));
    assert_eq!(manager.modify_permissions("t3", 0b001, Op::Unset), Err(AuthError::NotRegistered));
    assert_eq!(manager.get_one("t2"), Some(("bob".to_string(), 0b110)));

    manager.revoke_token("t2".to_string());
    assert_eq!(manager.get_one("t2"), None);
    assert_eq!(manager.get_one("t1"), Some(("alice".to_string(), 0b100)));
    manager.revoke_token("unknown".to_string());
    assert_eq!(manager.get_one("t1"), Some(("alice".to_string(), 0b100)));
    assert_eq!(manager.modify_permissions("t2", 0b001, Op::Unset), Err(AuthError::NotRegistered));
    manager.revoke_all();
    assert_eq!(manager.get_one("t1"), None);
}

#[test]
fn a_token_with_several_entries_is_left_with_one() {
    let mut manager = AuthManager::new();
    manager.load("t".to_string(), "first".to_string(), 1);
    manager.load("t".to_string(), "second".to_string(), 2);
    manager.refresh();
    let seen = manager.get_one("t").unwrap();
    assert!(seen == ("first".to_string(), 1) || seen == ("second".to_string(), 2));
    let changed = manager.modify_permissions("t", 4, Op::Unset).unwrap();
    assert!(changed == 5 || changed == 6);
    let left = manager.get_one("t").unwrap();
    assert_eq!(left.1, changed);
    assert!(left.0 == "first" || left.0 == "second");
    assert_eq!(manager.reader().get("t").map(|entries| entries.len()), Some(1));
    manager.revoke_token("t".to_string());
    assert_eq!(manager.get_one("t"), None);
}

#[test]
fn readers_see_what_the_manager_has_refreshed() {
    let mut manager = AuthManager::new();
    let reader = manager.reader();
    manager.load("t".to_string(), "user".to_string(), 7);
    assert!(reader.get_one("t").is_none());
    manager.refresh();
    assert_eq!(reader.get_one("t").map(|info| info.1), Some(7));
    manager.revoke_all();
    assert!(reader.get_one("t").is_none());
}

#[test]
fn the_manager_creates_and_checks_tokens() {
    let mut manager = AuthManager::new();
    let samples: Vec<u8> = (0..64).map(|i| b"q7Z"[i % 3]).collect();
    let token = manager.create_token(&samples, "carol".to_string(), AuthFlags::SEARCH).unwrap();
    assert_eq!(token.as_bytes(), &samples[..]);
    assert_eq!(manager.get_one(&token), Some(("carol".to_string(), AuthFlags::SEARCH)));
    assert_eq!(manager.create_token(&samples[..10], "dave".to_string(), 1), None);

    let header = format!("Bearer {}", token).into_bytes();
    assert!(manager.authorize(true, Some(&header), AuthFlags::SEARCH));
    assert!(manager.authorize(true, Some(&header), AuthFlags::SEARCH | AuthFlags::MODIFY_INDEXES));
    assert!(!manager.authorize(true, Some(&header), AuthFlags::MODIFY_DOCUMENTS));
    assert!(!manager.authorize(true, Some(b"Bearer nobody"), AuthFlags::SEARCH));
    assert!(!manager.authorize(true, Some(b"Bear"), AuthFlags::SEARCH));
    assert!(!manager.authorize(true, None, AuthFlags::SEARCH));
    assert!(manager.authorize(false, None, AuthFlags::SEARCH));
    // bytes that are not text are read with the replacement character
    manager.load("a\u{fffd}b".to_string(), "eve".to_string(), 1);
    manager.refresh();
    assert!(manager.authorize(true, Some(b"Bearer a\xffb"), 1));
}
