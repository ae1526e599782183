use chunk_store::app_file::{AppFile, ContentRecord, OwnershipRecord};
use chunk_store::digits::{i64_to_string, parse_i32_str, u64_to_string};
use chunk_store::memory::MemoryProvider;
use chunk_store::sessions::Model;

fn content(id: &str, mime: &str) -> ContentRecord {
    ContentRecord {
        id: id.to_string(),
        name_hash: "abcd1234".to_string(),
        mime: mime.to_string(),
        size: Some(6),
        chunks: Some(2),
        chunks_stored: Some(2),
        file_id: None,
        file_created_at: 1700000000,
        created_at: 1700000100,
        finished_upload_at: Some(1700000200),
    }
}

fn ownership(user_id: &str, is_owner: bool) -> OwnershipRecord {
    OwnershipRecord {
        user_id: user_id.to_string(),
        is_owner,
        encrypted_metadata: if is_owner { "blob-a" } else { "blob-b" }.to_string(),
    }
}

#[test]
fn views_of_one_content_record_compare_equal() {
    let a = AppFile::from((content("c-1", "text/plain"), ownership("u-1", true)));
    let b = AppFile::from((content("c-1", "text/plain"), ownership("u-2", false)));
    assert_eq!(a, b);
    assert!(!b.is_owner);
    assert_eq!(b.user_id, "u-2");
}

#[test]
fn views_of_different_content_records_never_compare_equal() {
    let a = AppFile::from((content("c-1", "text/plain"), ownership("u-1", true)));
    let b = AppFile::from((content("c-2", "text/plain"), ownership("u-1", true)));
    assert!(a != b);
}

#[test]
fn file_and_directory_are_mutually_exclusive() {
    let file = AppFile::from((content("c-1", "text/plain"), ownership("u-1", true)));
    assert!(file.is_file());
    assert!(!file.is_dir());
    let dir = AppFile::from((content("c-2", "dir"), ownership("u-1", true)));
    assert!(dir.is_dir());
    assert!(!dir.is_file());
}

#[test]
fn storage_key_joins_timestamp_and_id() {
    let file = AppFile::from((content("abc-def", "text/plain"), ownership("u-1", true)));
    assert_eq!(file.get_filename(), Some("1700000000-abc-def".to_string()));
    let dir = AppFile::from((content("abc-def", "dir"), ownership("u-1", true)));
    assert_eq!(dir.get_filename(), None);
}

#[test]
fn storage_key_of_a_pre_epoch_file_keeps_the_sign() {
    let mut record = content("abc", "text/plain");
    record.file_created_at = -5;
    let file = AppFile::from((record, ownership("u-1", true)));
    assert_eq!(file.get_filename(), Some("-5-abc".to_string()));
}

#[test]
fn is_new_builder_marks_the_view() {
    let file = AppFile::from((content("c-1", "text/plain"), ownership("u-1", true)));
    assert!(!file.is_new);
    let fresh = file.is_new(true);
    assert!(fresh.is_new);
    let stale = fresh.is_new(false);
    assert!(!stale.is_new);
}

#[test]
fn partial_upload_stays_unfinished() {
    let mut record = content("c-1", "text/plain");
    record.chunks = Some(3);
    record.chunks_stored = Some(1);
    record.finished_upload_at = None;
    record.size = None;

    let mut store = MemoryProvider::new();
    let view = AppFile::from((record, ownership("u-1", true)));
    let key = view.get_filename().unwrap();
    store.push(&key, 1, b"middle".as_slice());
    assert_eq!(store.get_uploaded_chunks(&key), vec![1]);

    let partial = ContentRecord {
        chunks: Some(3),
        chunks_stored: Some(1),
        finished_upload_at: None,
        size: None,
        ..content("c-1", "text/plain")
    };
    assert!(!partial.is_upload_complete());
    assert_eq!(partial.finished_upload_at, None);
}

#[test]
fn completed_upload_reports_complete() {
    let record = content("c-1", "text/plain");
    assert!(record.is_upload_complete());
    let dir = ContentRecord {
        chunks: None,
        chunks_stored: None,
        ..content("c-2", "dir")
    };
    assert!(!dir.is_upload_complete());
}

#[test]
fn decimal_rendering_matches_expected_strings() {
    assert_eq!(u64_to_string(0), "0");
    assert_eq!(u64_to_string(7), "7");
    assert_eq!(u64_to_string(1234567890), "1234567890");
    assert_eq!(i64_to_string(-42), "-42");
    assert_eq!(i64_to_string(i64::MIN), "-9223372036854775808");
    assert_eq!(i64_to_string(i64::MAX), "9223372036854775807");
}

#[test]
fn integer_parsing_matches_std_behaviour() {
    for token in ["17", "-2147483648", "2147483647", "+5", "0", "-0", "007"] {
        assert_eq!(parse_i32_str(token), token.parse::<i32>().ok(), "token {token}");
    }
    for token in ["", "-", "+", "12a", "2147483648", "-2147483649", "1.5", " 1"] {
        assert_eq!(parse_i32_str(token), None, "token {token}");
        assert!(token.parse::<i32>().is_err(), "token {token}");
    }
}

#[test]
fn session_expiry_is_a_timestamp_comparison() {
    let session = Model {
        id: 1,
        user_id: 2,
        token: "SECRET-REDACTED".to_string(),
        csrf: "SECRET-REDACTED".to_string(),
        created_at: 100,
        updated_at: 150,
        expires_at: 200,
    };
    assert!(!session.is_expired(199));
    assert!(session.is_expired(200));
    assert!(session.is_expired(201));
}
