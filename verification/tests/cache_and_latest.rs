use qpac::error::AppError;
use qpac::pac::Pac;
use qpac::storage::{delete_outcome, insert_outcome, MemoryStorage};
use qpac::web::{artifact_content_type, artifact_location};

#[test]
fn get_by_unknown_hash_fails_not_found() {
    let storage = MemoryStorage::default();
    assert_eq!(storage.get_file("never-uploaded"), Err(AppError::NotFound));
}

#[test]
fn get_latest_before_any_generation_fails_not_found() {
    let storage = MemoryStorage::default();
    assert!(matches!(storage.get_file_latest(), Err(AppError::NotFound)));
}

#[test]
fn upload_then_get_by_hash() {
    let mut storage = MemoryStorage::default();
    let pac = Pac::new("body".to_string(), "h1".to_string());
    storage.upload_file(&pac).unwrap();
    assert_eq!(storage.get_file("h1").unwrap(), "body");
}

#[test]
fn upload_is_idempotent() {
    let mut storage = MemoryStorage::default();
    let pac = Pac::new("body".to_string(), "h1".to_string());
    storage.upload_file(&pac).unwrap();
    storage.upload_file(&pac).unwrap();
    assert_eq!(storage.get_file("h1").unwrap(), "body");
}

#[test]
fn latest_follows_most_recent_set_latest() {
    let mut storage = MemoryStorage::default();
    storage
        .upload_file(&Pac::new("one".to_string(), "h1".to_string()))
        .unwrap();
    storage
        .upload_file(&Pac::new("two".to_string(), "h2".to_string()))
        .unwrap();
    storage.set_latest("h1".to_string()).unwrap();
    storage.set_latest("h2".to_string()).unwrap();
    let latest = storage.get_file_latest().unwrap();
    assert_eq!(latest.hash, "h2");
    assert_eq!(latest.file, "two");
}

#[test]
fn latest_pointing_at_missing_artifact_fails_not_found() {
    let mut storage = MemoryStorage::default();
    storage.set_latest("missing".to_string()).unwrap();
    assert!(matches!(storage.get_file_latest(), Err(AppError::NotFound)));
}

#[test]
fn regeneration_scenario_preserves_old_artifacts() {
    let mut storage = MemoryStorage::default();
    storage.add_host("a.com".to_string()).unwrap();
    storage.add_host("b.com".to_string()).unwrap();
    storage.regenerate().unwrap();

    let first = storage.get_file_latest().unwrap();
    let h1 = first.hash.clone();
    assert!(first
        .file
        .starts_with("var __HOSTS__ = [\"a.com\",\"b.com\"];\n"));

    storage.add_host("c.com".to_string()).unwrap();
    storage.regenerate().unwrap();

    let second = storage.get_file_latest().unwrap();
    let h2 = second.hash.clone();
    assert_ne!(h1, h2);
    assert!(second
        .file
        .starts_with("var __HOSTS__ = [\"a.com\",\"b.com\",\"c.com\"];\n"));

    // The first artifact is immutable and still served under its own hash.
    assert_eq!(storage.get_file(&h1).unwrap(), first.file);
}

#[test]
fn regeneration_is_reproducible() {
    let mut s1 = MemoryStorage::default();
    let mut s2 = MemoryStorage::default();
    for s in ["a.com", "b.com"] {
        s1.add_host(s.to_string()).unwrap();
        s2.add_host(s.to_string()).unwrap();
    }
    s1.regenerate().unwrap();
    s2.regenerate().unwrap();
    let p1 = s1.get_file_latest().unwrap();
    let p2 = s2.get_file_latest().unwrap();
    assert_eq!(p1.hash, p2.hash);
    assert_eq!(p1.file, p2.file);
}

#[test]
fn app_error_status_codes() {
    assert_eq!(
        AppError::PreconditionFailed("dup".to_string()).status_code(),
        400
    );
    assert_eq!(AppError::NotFound.status_code(), 404);
    assert_eq!(AppError::Other("boom".to_string()).status_code(), 500);
}

#[test]
fn app_error_messages() {
    assert_eq!(
        AppError::PreconditionFailed("dup".to_string()).message(),
        "PreconditionFailed: dup"
    );
    assert_eq!(AppError::NotFound.message(), "NotFound");
    assert_eq!(
        AppError::Other("boom".to_string()).message(),
        "Internal error: boom"
    );
}

#[test]
fn durable_row_count_outcomes() {
    assert_eq!(
        insert_outcome(0),
        Err(AppError::PreconditionFailed(
            "Host already exists".to_string()
        ))
    );
    assert_eq!(insert_outcome(1), Ok(()));
    assert_eq!(delete_outcome(0), Err(AppError::NotFound));
    assert_eq!(delete_outcome(1), Ok(()));
}

#[test]
fn location_percent_encodes_the_hash() {
    assert_eq!(artifact_location("abc"), "/abc");
    assert_eq!(artifact_location("a/b+c="), "/a%2Fb%2Bc%3D");
    assert_eq!(artifact_content_type(), "text/javascript");
}
