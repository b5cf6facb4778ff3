use kvbridge::bridge::Bridge;
use kvbridge::negotiate::ContentType;
use kvbridge::protocol::Fault;
use kvbridge::protocol::LookupResult;
use kvbridge::protocol::settle_reply;
use kvbridge::protocol::settle_reply_deadline;
use kvbridge::protocol::wrap_query_outcome;
use kvbridge::respond::respond;
use kvbridge::respond::respond_query;
use kvbridge::store::MemStore;

fn country_store() -> MemStore {
    let mut store = MemStore::new();
    store.insert(b"US".to_vec(), b"{\"name\":\"United States\"}".to_vec());
    store.insert(b"FR".to_vec(), b"{\"name\":\"France\"}".to_vec());
    store
}

#[test]
fn present_key_resolves_to_stored_bytes() {
    let mut bridge = Bridge::new(3, country_store());
    let result = bridge.dispatch(b"US");
    assert_eq!(
        result,
        LookupResult::Found(b"{\"name\":\"United States\"}".to_vec())
    );
}

#[test]
fn absent_key_resolves_to_not_found() {
    let mut bridge = Bridge::new(3, country_store());
    assert_eq!(bridge.dispatch(b"ZZ"), LookupResult::NotFound);
}

#[test]
fn scenario_country_lookup_as_json() {
    let mut bridge = Bridge::new(3, country_store());
    let found = bridge.dispatch(b"US");
    let reply = respond(b"application/json", &found);
    assert_eq!(reply.status, 200);
    assert_eq!(reply.content_type, Some(ContentType::Json));
    assert_eq!(reply.body, b"{\"name\":\"United States\"}".to_vec());

    let missing = bridge.dispatch(b"ZZ");
    let reply = respond(b"application/json", &missing);
    assert_eq!(reply.status, 404);
    assert!(reply.body.is_empty());

    // Two dispatches of the same key resolve correctly and independently.
    let again_a = bridge.dispatch(b"US");
    let again_b = bridge.dispatch(b"US");
    assert_eq!(again_a, again_b);
    assert_eq!(
        again_a,
        LookupResult::Found(b"{\"name\":\"United States\"}".to_vec())
    );
}

#[test]
fn store_fault_is_contained_and_pool_survives() {
    let mut store = country_store();
    store.mark_faulty(b"DE".to_vec());
    let mut bridge = Bridge::new(3, store);

    let faulted = bridge.dispatch(b"DE");
    assert_eq!(faulted, LookupResult::Failed(Fault::StoreFault));
    let reply = respond(b"application/json", &faulted);
    assert_eq!(reply.status, 500);
    assert!(reply.body.is_empty());

    // The fault did not crash a worker: other keys still succeed.
    assert_eq!(
        bridge.dispatch(b"FR"),
        LookupResult::Found(b"{\"name\":\"France\"}".to_vec())
    );
}

#[test]
fn closed_pool_fails_dispatch_with_pool_unavailable() {
    let mut bridge = Bridge::new(2, country_store());
    bridge.pool.close();
    assert_eq!(
        bridge.dispatch(b"US"),
        LookupResult::Failed(Fault::PoolUnavailable)
    );
}

#[test]
fn undecodable_stored_bytes_are_an_internal_error() {
    let mut store = MemStore::new();
    store.insert(b"XX".to_vec(), b"not a record".to_vec());
    let mut bridge = Bridge::new(1, store);
    let found = bridge.dispatch(b"XX");
    let reply = respond(b"application/json", &found);
    assert_eq!(reply.status, 500);
    assert!(reply.body.is_empty());
}

#[test]
fn reply_settlement_maps_missing_replies_to_faults() {
    assert_eq!(
        settle_reply(None),
        LookupResult::Failed(Fault::PoolUnavailable)
    );
    assert_eq!(
        settle_reply(Some(LookupResult::NotFound)),
        LookupResult::NotFound
    );
    assert_eq!(
        settle_reply_deadline(None),
        LookupResult::Failed(Fault::Timeout)
    );
    assert_eq!(
        settle_reply_deadline(Some(LookupResult::NotFound)),
        LookupResult::NotFound
    );
}

#[test]
fn query_dispatch_shares_the_pool_contract() {
    let mut bridge = Bridge::new(3, country_store());
    let ok = bridge.dispatch_query(b"{ country(code: \"US\") { name } }", Ok(b"{\"data\":{}}".to_vec()));
    assert_eq!(ok, LookupResult::Found(b"{\"data\":{}}".to_vec()));
    let reply = respond_query(&ok);
    assert_eq!(reply.status, 200);
    assert_eq!(reply.body, b"{\"data\":{}}".to_vec());

    let bad = bridge.dispatch_query(b"{}", Err(Fault::StoreFault));
    assert_eq!(bad, LookupResult::Failed(Fault::StoreFault));
    assert_eq!(respond_query(&bad).status, 500);

    // A fault in one query leaves the pool serving later requests.
    assert_eq!(
        bridge.dispatch(b"FR"),
        LookupResult::Found(b"{\"name\":\"France\"}".to_vec())
    );
}

#[test]
fn query_outcomes_wrap_like_lookups() {
    assert_eq!(
        wrap_query_outcome(Ok(b"result".to_vec())),
        LookupResult::Found(b"result".to_vec())
    );
    assert_eq!(
        wrap_query_outcome(Err(Fault::StoreFault)),
        LookupResult::Failed(Fault::StoreFault)
    );
}
