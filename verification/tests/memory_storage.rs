use qpac::error::AppError;
use qpac::storage::MemoryStorage;

#[test]
fn memory_storage_adds_sorted() {
    let mut storage = MemoryStorage::default();
    let test = vec![
        "a".to_string(),
        "aa".to_string(),
        "ab".to_string(),
        "abc".to_string(),
        "b".to_string(),
        "bac".to_string(),
        "sa".to_string(),
        "z".to_string(),
    ];
    for s in test.iter() {
        storage.add_host(s.clone()).unwrap();
    }
    let res = storage.all_hosts().unwrap();
    assert_eq!(res, test);
}

#[test]
fn memory_storage_fails_to_add_non_uniq() {
    let mut storage = MemoryStorage::default();
    let test = vec!["a", "aa"];
    for s in test.into_iter() {
        storage.add_host(s.to_string()).unwrap();
    }
    assert_eq!(
        storage.add_host("aa".to_string()),
        Err(AppError::PreconditionFailed(
            "Host already exists".to_string()
        ))
    );
}

#[test]
fn memory_storage_remove_existing() {
    let mut storage = MemoryStorage::default();
    let test = ["a", "aa", "ab"];
    for s in test.into_iter() {
        storage.add_host(s.to_string()).unwrap();
    }
    storage.remove_host("ab").unwrap();
    storage.remove_host("aa").unwrap();
    let res = storage.all_hosts().unwrap();
    assert_eq!(res, vec!["a".to_string()]);
}

#[test]
fn memory_storage_fails_to_remove_missing() {
    let mut storage = MemoryStorage::default();
    let test = vec!["a", "aa"];
    for s in test.into_iter() {
        storage.add_host(s.to_string()).unwrap();
    }
    assert_eq!(storage.remove_host("ab"), Err(AppError::NotFound));
}

#[test]
fn unsorted_inserts_come_back_sorted() {
    let mut storage = MemoryStorage::default();
    for s in ["z", "a", "m", "aa", "b"] {
        storage.add_host(s.to_string()).unwrap();
    }
    let res = storage.all_hosts().unwrap();
    assert_eq!(res, vec!["a", "aa", "b", "m", "z"]);
}

#[test]
fn add_then_remove_restores_whitelist() {
    let mut storage = MemoryStorage::default();
    for s in ["a.com", "c.com"] {
        storage.add_host(s.to_string()).unwrap();
    }
    let before = storage.all_hosts().unwrap();
    storage.add_host("b.com".to_string()).unwrap();
    storage.remove_host("b.com").unwrap();
    assert_eq!(storage.all_hosts().unwrap(), before);
}

#[test]
fn failed_add_leaves_whitelist_unchanged() {
    let mut storage = MemoryStorage::default();
    for s in ["a.com", "b.com"] {
        storage.add_host(s.to_string()).unwrap();
    }
    let before = storage.all_hosts().unwrap();
    assert!(storage.add_host("a.com".to_string()).is_err());
    assert_eq!(storage.all_hosts().unwrap(), before);
}

#[test]
fn failed_remove_leaves_whitelist_unchanged() {
    let mut storage = MemoryStorage::default();
    storage.add_host("a.com".to_string()).unwrap();
    let before = storage.all_hosts().unwrap();
    assert_eq!(storage.remove_host("nope"), Err(AppError::NotFound));
    assert_eq!(storage.all_hosts().unwrap(), before);
}

#[test]
fn empty_host_is_accepted_once() {
    let mut storage = MemoryStorage::default();
    storage.add_host(String::new()).unwrap();
    assert!(storage.add_host(String::new()).is_err());
    assert_eq!(storage.all_hosts().unwrap(), vec!["".to_string()]);
}
