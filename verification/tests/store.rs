use kvbridge::protocol::Fault;
use kvbridge::store::MemStore;
use kvbridge::store::bytes_eq;

#[test]
fn lookup_finds_inserted_value() {
    let mut store = MemStore::new();
    store.insert(b"US".to_vec(), b"one".to_vec());
    assert_eq!(store.lookup(b"US"), Ok(Some(b"one".to_vec())));
    assert_eq!(store.lookup(b"ZZ"), Ok(None));
}

#[test]
fn later_insert_shadows_earlier() {
    let mut store = MemStore::new();
    store.insert(b"US".to_vec(), b"one".to_vec());
    store.insert(b"US".to_vec(), b"two".to_vec());
    assert_eq!(store.lookup(b"US"), Ok(Some(b"two".to_vec())));
}

#[test]
fn injected_fault_hits_only_its_key() {
    let mut store = MemStore::new();
    store.insert(b"US".to_vec(), b"one".to_vec());
    store.insert(b"FR".to_vec(), b"two".to_vec());
    store.mark_faulty(b"US".to_vec());
    assert_eq!(store.lookup(b"US"), Err(Fault::StoreFault));
    assert_eq!(store.lookup(b"FR"), Ok(Some(b"two".to_vec())));
}

#[test]
fn byte_equality_is_exact() {
    assert!(bytes_eq(b"abc", b"abc"));
    assert!(bytes_eq(b"", b""));
    assert!(!bytes_eq(b"abc", b"abd"));
    assert!(!bytes_eq(b"abc", b"ab"));
}
