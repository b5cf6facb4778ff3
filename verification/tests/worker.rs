use kvbridge::console::console_route;
use kvbridge::negotiate::ContentType;
use kvbridge::protocol::LookupResult;
use kvbridge::respond::respond_query;
use kvbridge::worker::perform_lookup;

fn open_tree() -> (sled::Db, sled::Tree) {
    let db = sled::Config::new()
        .temporary(true)
        .open()
        .expect("temporary store");
    let tree = db.open_tree(b"countries").expect("tree");
    (db, tree)
}

#[test]
fn worker_lookup_against_real_store() {
    let (_db, tree) = open_tree();
    tree.insert(b"US", b"{\"name\":\"United States\"}".to_vec())
        .expect("insert");
    assert_eq!(
        perform_lookup(&tree, b"US"),
        LookupResult::Found(b"{\"name\":\"United States\"}".to_vec())
    );
    assert_eq!(perform_lookup(&tree, b"ZZ"), LookupResult::NotFound);
}

#[test]
fn query_reply_passes_found_bytes_through() {
    let found = LookupResult::Found(b"{\"data\":{}}".to_vec());
    let reply = respond_query(&found);
    assert_eq!(reply.status, 200);
    assert_eq!(reply.content_type, Some(ContentType::Json));
    assert_eq!(reply.body, b"{\"data\":{}}".to_vec());

    let missing = respond_query(&LookupResult::NotFound);
    assert_eq!(missing.status, 404);
    assert!(missing.body.is_empty());
}

#[test]
fn console_route_serves_a_real_page() {
    let url = "http://localhost:63333/graphql";
    let (status, content_type, page) = console_route(url);
    assert_eq!(status, 200);
    assert_eq!(content_type, ContentType::Html);
    // A real page, not the URL handed back.
    assert!(page.len() > url.len());
    assert!(page.contains("<html"));
    assert!(page.contains(url));
}
