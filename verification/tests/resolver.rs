use relay_core::cache::{Binding, KEY_LEN};
use relay_core::identity::{
    bind_key_endpoint, mirror_columns, parse_did_doc, parse_key_endpoint, DidDocument, Service,
    VerificationMethod,
};
use relay_core::resolver::{
    Completed, MirrorAnswer, PlcOperation, Query, Request, Resolver, ResolverError,
};
use relay_core::types::Timestamp;

fn key_bytes(seed: u8) -> Vec<u8> {
    let mut bytes = vec![0xe7, 0x01];
    for i in 0..33u8 {
        bytes.push(seed.wrapping_add(i));
    }
    bytes
}

fn key_text(seed: u8) -> String {
    multibase::encode(multibase::Base::Base58Btc, key_bytes(seed))
}

fn row(endpoint: &str, seed: u8) -> MirrorAnswer {
    MirrorAnswer::Row { endpoint: Some(endpoint.to_owned()), key: Some(key_text(seed)) }
}

fn resolver(capacity: usize, export: bool, after: Option<&str>) -> Resolver {
    Resolver::new(capacity, export, false, after.unwrap_or("").to_owned(), 60, 1000)
}

fn urls(requests: &[Request]) -> Vec<String> {
    requests.iter().map(|r| r.url.clone()).collect()
}

fn document(id: &str, seed: u8) -> DidDocument {
    DidDocument {
        id: id.to_owned(),
        service: Some(vec![Service {
            id: "#atproto_pds".to_owned(),
            service_endpoint: "https://example.com".to_owned(),
        }]),
        verification_method: Some(vec![VerificationMethod {
            id: format!("{id}#atproto"),
            public_key_multibase: Some(key_text(seed)),
        }]),
    }
}

#[test]
fn key_length_is_thirty_five() {
    assert_eq!(KEY_LEN, 35);
    assert_eq!(key_bytes(0).len(), KEY_LEN);
}

#[test]
fn parse_key_endpoint_decodes_key_and_host() {
    let key = format!("did:key:{}", key_text(3));
    let b = parse_key_endpoint(Some("https://example.com/"), Some(&key)).unwrap();
    assert_eq!(b.endpoint.as_deref(), Some("example.com"));
    assert_eq!(b.key, key_bytes(3));
}

#[test]
fn parse_key_endpoint_takes_a_bare_multibase_key() {
    let b = parse_key_endpoint(None, Some(&key_text(9))).unwrap();
    assert_eq!(b.endpoint, None);
    assert_eq!(b.key, key_bytes(9));
}

#[test]
fn parse_key_endpoint_drops_an_endpoint_without_tls() {
    let b = parse_key_endpoint(Some("http://example.com"), Some(&key_text(1))).unwrap();
    assert_eq!(b.endpoint, None);
}

#[test]
fn parse_key_endpoint_needs_a_key() {
    assert!(parse_key_endpoint(Some("https://example.com"), None).is_none());
}

#[test]
fn parse_key_endpoint_rejects_what_is_no_multibase() {
    assert!(parse_key_endpoint(None, Some("")).is_none());
    assert!(parse_key_endpoint(None, Some("!nonsense")).is_none());
    assert!(parse_key_endpoint(None, Some("z0OIl")).is_none());
}

#[test]
fn parse_key_endpoint_rejects_a_key_of_another_length() {
    let short = multibase::encode(multibase::Base::Base58Btc, &key_bytes(0)[..34]);
    assert!(parse_key_endpoint(None, Some(&short)).is_none());
    let mut long = key_bytes(0);
    long.push(1);
    let long = multibase::encode(multibase::Base::Base58Btc, long);
    assert!(parse_key_endpoint(None, Some(&long)).is_none());
}

#[test]
fn the_key_is_decoded_not_copied() {
    let text = key_text(5);
    let b = parse_key_endpoint(None, Some(&text)).unwrap();
    assert_ne!(b.key, text.as_bytes());
    let hex = multibase::encode(multibase::Base::Base16Lower, key_bytes(5));
    assert_eq!(parse_key_endpoint(None, Some(&hex)).unwrap().key, key_bytes(5));
}

#[test]
fn bind_key_endpoint_checks_the_length() {
    assert!(bind_key_endpoint(None, None).is_none());
    assert!(bind_key_endpoint(None, Some(vec![1, 2, 3])).is_none());
    let b = bind_key_endpoint(Some("https://pds.example.com//"), Some(key_bytes(2))).unwrap();
    assert_eq!(b.endpoint.as_deref(), Some("pds.example.com"));
    assert_eq!(b.key, key_bytes(2));
}

#[test]
fn parse_did_doc_reads_the_first_matching_entries() {
    let doc = DidDocument {
        id: "did:plc:abc".to_owned(),
        service: Some(vec![
            Service { id: "#other".to_owned(), service_endpoint: "https://no.example".to_owned() },
            Service {
                id: "#atproto_pds".to_owned(),
                service_endpoint: "https://first.example".to_owned(),
            },
            Service {
                id: "did:plc:abc#atproto_pds".to_owned(),
                service_endpoint: "https://second.example".to_owned(),
            },
        ]),
        verification_method: Some(vec![
            VerificationMethod {
                id: "did:plc:abc#atproto_label".to_owned(),
                public_key_multibase: Some(key_text(1)),
            },
            VerificationMethod {
                id: "did:plc:abc#atproto".to_owned(),
                public_key_multibase: Some(key_text(2)),
            },
        ]),
    };
    let (did, b) = parse_did_doc(&doc, false).unwrap();
    assert_eq!(did, "did:plc:abc");
    assert_eq!(b.endpoint.as_deref(), Some("first.example"));
    assert_eq!(b.key, key_bytes(2));
}

#[test]
fn parse_did_doc_without_a_key_gives_nothing() {
    let mut doc = document("did:plc:abc", 1);
    doc.verification_method = None;
    assert!(parse_did_doc(&doc, false).is_none());
    let mut doc = document("did:plc:abc", 1);
    doc.verification_method = Some(vec![VerificationMethod {
        id: "#atproto".to_owned(),
        public_key_multibase: None,
    }]);
    assert!(parse_did_doc(&doc, false).is_none());
}

#[test]
fn parse_did_doc_without_services_keeps_the_key() {
    let mut doc = document("did:plc:abc", 4);
    doc.service = None;
    let (_, b) = parse_did_doc(&doc, false).unwrap();
    assert_eq!(b.endpoint, None);
    assert_eq!(b.key, key_bytes(4));
}

#[test]
fn resolve_answers_from_the_mirror_and_then_from_the_cache() {
    let mut r = resolver(4, false, Some("2024-01-01T00:00:00Z"));
    assert!(r.needs_mirror("did:plc:aaa"));
    let b = r.resolve("did:plc:aaa", &row("https://example.com", 1), 0).unwrap().unwrap();
    assert_eq!(b.endpoint.as_deref(), Some("example.com"));
    assert_eq!(b.key, key_bytes(1));
    assert!(!r.needs_mirror("did:plc:aaa"));
    // the mirror is not read on a hit
    let again = r.resolve("did:plc:aaa", &MirrorAnswer::Failed("down".to_owned()), 0);
    assert_eq!(again.unwrap().unwrap().key, key_bytes(1));
    assert!(r.take_requests().is_empty());
}

#[test]
fn resolve_of_an_unknown_ledger_did_fetches_it() {
    let mut r = resolver(4, false, Some("2024-01-01T00:00:00Z"));
    assert!(r.resolve("did:plc:bbb", &MirrorAnswer::NoRows, 0).unwrap().is_none());
    assert!(r.is_inflight("did:plc:bbb"));
    let requests = r.take_requests();
    assert_eq!(urls(&requests), vec!["https://plc.directory/did:plc:bbb"]);
    assert!(matches!(&requests[0].query, Query::Did(d) if d == "did:plc:bbb"));
    // while the fetch is outstanding nothing more is asked
    assert!(r.resolve("did:plc:bbb", &row("https://example.com", 1), 0).unwrap().is_none());
    assert!(r.take_requests().is_empty());
    assert!(r.cached("did:plc:bbb").is_none());
}

#[test]
fn resolve_of_a_web_did_fetches_its_document() {
    let mut r = resolver(4, true, Some("2024-01-01T00:00:00Z"));
    assert!(r.resolve("did:web:example.com", &MirrorAnswer::NoRows, 0).unwrap().is_none());
    assert!(r.resolve("did:web:localhost%3A8080", &MirrorAnswer::NoRows, 0).unwrap().is_none());
    assert_eq!(
        urls(&r.take_requests()),
        vec![
            "https://example.com/.well-known/did.json",
            "https://localhost:8080/.well-known/did.json"
        ]
    );
    assert!(r.is_inflight("did:web:example.com"));
    assert!(r.is_inflight("did:web:localhost%3A8080"));
}

#[test]
fn a_web_did_that_does_not_decode_is_neither_awaited_nor_fetched() {
    let mut r = resolver(4, false, None);
    r.request("did:web:%ff", 0);
    assert!(!r.is_inflight("did:web:%ff"));
    assert!(r.take_requests().is_empty());
    assert!(r.resolve("did:web:%FF", &MirrorAnswer::NoRows, 0).unwrap().is_none());
    assert!(!r.is_inflight("did:web:%FF"));
    // it resolves as soon as the mirror holds it
    assert!(r.resolve("did:web:%FF", &row("https://example.com", 1), 0).unwrap().is_some());
}

#[test]
fn a_did_of_another_method_is_neither_awaited_nor_fetched() {
    let mut r = resolver(4, false, None);
    assert!(r.resolve("did:example:123", &MirrorAnswer::NoRows, 0).unwrap().is_none());
    assert!(!r.is_inflight("did:example:123"));
    assert!(r.take_requests().is_empty());
}

#[test]
fn unresolved_ledger_and_web_dids_are_awaited() {
    for export in [false, true] {
        for did in ["did:plc:x", "did:web:x.example", "did:web:x.example%3A80"] {
            let mut r = resolver(2, export, Some("2024-01-01T00:00:00Z"));
            let answer = r.resolve(did, &MirrorAnswer::NoRows, 5).unwrap();
            assert!(answer.is_none());
            assert!(r.is_inflight(did));
        }
    }
}

#[test]
fn a_failing_mirror_is_an_error() {
    let mut r = resolver(4, false, None);
    let e = r.resolve("did:plc:aaa", &MirrorAnswer::Failed("disk".to_owned()), 0).unwrap_err();
    assert!(matches!(&e, ResolverError::Sqlite(m) if m == "disk"));
    assert_eq!(e.message(), "sqlite error: disk");
    assert!(!r.is_inflight("did:plc:aaa"));
    let e = r.query_db("did:plc:aaa", &MirrorAnswer::Failed("disk".to_owned())).unwrap_err();
    assert!(matches!(e, ResolverError::Sqlite(_)));
}

#[test]
fn resolver_error_messages() {
    assert_eq!(ResolverError::SizeError.message(), "size error");
    assert_eq!(ResolverError::Http("timeout".to_owned()).message(), "http error: timeout");
}

#[test]
fn query_db_caches_a_row_with_a_key() {
    let mut r = resolver(4, false, None);
    assert!(r.query_db("did:plc:aaa", &row("https://example.com", 1)).unwrap());
    assert_eq!(r.cached("did:plc:aaa").unwrap().key, key_bytes(1));
    assert!(!r.query_db("did:plc:bbb", &MirrorAnswer::NoRows).unwrap());
    let keyless = MirrorAnswer::Row { endpoint: Some("https://example.com".to_owned()), key: None };
    assert!(!r.query_db("did:plc:ccc", &keyless).unwrap());
    assert!(r.cached("did:plc:ccc").is_none());
}

#[test]
fn the_cache_evicts_the_least_recently_used() {
    let mut r = resolver(2, false, None);
    r.resolve("did:plc:a", &row("https://a.example", 1), 0).unwrap();
    r.resolve("did:plc:b", &row("https://b.example", 2), 0).unwrap();
    // reading `a` makes `b` the least recently used
    r.resolve("did:plc:a", &MirrorAnswer::NoRows, 0).unwrap();
    r.resolve("did:plc:c", &row("https://c.example", 3), 0).unwrap();
    assert!(r.cached("did:plc:a").is_some());
    assert!(r.cached("did:plc:b").is_none());
    assert!(r.cached("did:plc:c").is_some());
}

#[test]
fn peek_answers_as_resolve_without_changing_anything() {
    let mut r = resolver(2, false, None);
    assert_eq!(r.peek("did:plc:a", &row("https://a.example", 1)).unwrap().key, key_bytes(1));
    assert!(r.cached("did:plc:a").is_none());
    assert!(r.peek("did:plc:a", &MirrorAnswer::NoRows).is_none());
    assert!(!r.is_inflight("did:plc:a"));
    r.request("did:plc:a", 0);
    assert!(r.peek("did:plc:a", &row("https://a.example", 1)).is_none());
}

#[test]
fn with_the_export_a_ledger_did_waits_for_the_next_page() {
    let mut r = resolver(4, true, Some("2024-01-01T00:00:00Z"));
    r.request("did:plc:aaa", 77);
    let requests = r.take_requests();
    assert_eq!(
        urls(&requests),
        vec!["https://plc.directory/export?count=1000&after=2024-01-01T00:00:00Z"]
    );
    assert!(matches!(&requests[0].query, Query::Export(a) if a == "2024-01-01T00:00:00Z"));
    // a page is on its way: no second one is asked for
    r.request("did:plc:bbb", 78);
    assert!(r.take_requests().is_empty());
    assert!(r.is_inflight("did:plc:aaa"));
    assert!(r.is_inflight("did:plc:bbb"));
}

#[test]
fn expire_forgets_what_is_older_than_the_event() {
    let after = "2024-01-01T00:00:00Z";
    let at = 1_704_067_200;
    let mut r = resolver(4, false, Some(after));
    r.resolve("did:plc:aaa", &row("https://example.com", 1), 0).unwrap();
    r.expire("did:plc:aaa", Timestamp { secs: at, nanos: 0 }, 0);
    assert!(r.cached("did:plc:aaa").is_some());
    r.expire("did:plc:aaa", Timestamp { secs: at - 1, nanos: 999_999_999 }, 0);
    assert!(r.cached("did:plc:aaa").is_some());
    r.expire("did:plc:aaa", Timestamp { secs: at, nanos: 1 }, 0);
    assert!(r.cached("did:plc:aaa").is_none());
    assert!(r.is_inflight("did:plc:aaa"));
    assert_eq!(urls(&r.take_requests()), vec!["https://plc.directory/did:plc:aaa"]);
}

#[test]
fn expire_reads_the_offset_of_the_import_time() {
    // 01:00 at +01:00 is midnight UTC
    let mut r = resolver(4, false, Some("2024-01-01T01:00:00+01:00"));
    r.resolve("did:plc:aaa", &row("https://example.com", 1), 0).unwrap();
    r.expire("did:plc:aaa", Timestamp { secs: 1_704_067_200, nanos: 0 }, 0);
    assert!(r.cached("did:plc:aaa").is_some());
    r.expire("did:plc:aaa", Timestamp { secs: 1_704_067_201, nanos: 0 }, 0);
    assert!(r.cached("did:plc:aaa").is_none());
}

#[test]
fn expire_with_an_unreadable_import_time_always_forgets() {
    let mut r = resolver(4, false, Some("yesterday"));
    r.resolve("did:plc:aaa", &row("https://example.com", 1), 0).unwrap();
    r.expire("did:plc:aaa", Timestamp { secs: i64::MIN, nanos: 0 }, 0);
    assert!(r.cached("did:plc:aaa").is_none());
}

#[test]
fn expire_forgets_also_while_a_page_is_on_its_way() {
    let mut r = resolver(4, true, Some("2024-01-01T00:00:00Z"));
    r.resolve("did:plc:aaa", &row("https://example.com", 1), 0).unwrap();
    r.request("did:plc:other", 0);
    assert_eq!(r.take_requests().len(), 1);
    // the page is out: an older event changes nothing, a newer one forgets the DID
    r.expire("did:plc:aaa", Timestamp { secs: 1_704_067_200, nanos: 0 }, 0);
    assert!(r.cached("did:plc:aaa").is_some());
    r.expire("did:plc:aaa", Timestamp { secs: 1_704_067_201, nanos: 0 }, 0);
    assert!(r.cached("did:plc:aaa").is_none());
    assert!(r.is_inflight("did:plc:aaa"));
    assert!(r.take_requests().is_empty());
}

#[test]
fn a_failed_fetch_of_the_export_is_tried_again() {
    let mut r = resolver(4, true, Some("t0"));
    r.request("did:plc:aaa", 2000);
    assert_eq!(urls(&r.take_requests()), vec!["https://plc.directory/export?count=1000&after=t0"]);
    // while the page is out no other is asked for
    r.poll(None, 5000).unwrap();
    assert!(r.take_requests().is_empty());
    let failed = Completed::Failed(Query::Export("t0".to_owned()));
    assert!(r.poll(Some(failed), 5001).unwrap().is_empty());
    assert!(r.is_inflight("did:plc:aaa"));
    // the import goes on from where it stood
    r.poll(None, 5002).unwrap();
    assert_eq!(urls(&r.take_requests()), vec!["https://plc.directory/export?count=1000&after=t0"]);
}

#[test]
fn a_failed_fetch_of_a_document_leaves_the_import_alone() {
    let mut r = resolver(4, true, Some("t0"));
    r.request("did:plc:aaa", 2000);
    r.take_requests();
    let failed = Completed::Failed(Query::Did("did:web:example.com".to_owned()));
    r.poll(Some(failed), 5001).unwrap();
    r.poll(None, 5002).unwrap();
    assert!(r.take_requests().is_empty());
}

#[test]
fn a_relay_of_labels_reads_the_labeler() {
    let doc = DidDocument {
        id: "did:plc:abc".to_owned(),
        service: Some(vec![
            Service {
                id: "#atproto_pds".to_owned(),
                service_endpoint: "https://pds.example".to_owned(),
            },
            Service {
                id: "#atproto_labeler".to_owned(),
                service_endpoint: "https://labels.example".to_owned(),
            },
        ]),
        verification_method: Some(vec![
            VerificationMethod {
                id: "did:plc:abc#atproto".to_owned(),
                public_key_multibase: Some(key_text(1)),
            },
            VerificationMethod {
                id: "did:plc:abc#atproto_label".to_owned(),
                public_key_multibase: Some(key_text(2)),
            },
        ]),
    };
    let (_, b) = parse_did_doc(&doc, true).unwrap();
    assert_eq!(b.endpoint.as_deref(), Some("labels.example"));
    assert_eq!(b.key, key_bytes(2));
    let (_, b) = parse_did_doc(&doc, false).unwrap();
    assert_eq!(b.endpoint.as_deref(), Some("pds.example"));
    assert_eq!(b.key, key_bytes(1));
    assert_eq!(mirror_columns(true), ("labeler_endpoint", "labeler_key"));
    assert_eq!(mirror_columns(false), ("pds_endpoint", "pds_key"));
    let mut r = Resolver::new(4, false, true, "t0".to_owned(), 60, 1000);
    assert!(r.labeler());
    r.request("did:plc:abc", 0);
    let done = Completed::Document { did: "did:plc:abc".to_owned(), doc: Some(doc) };
    assert_eq!(r.poll(Some(done), 0).unwrap(), vec!["did:plc:abc"]);
    assert_eq!(r.cached("did:plc:abc").unwrap().endpoint.as_deref(), Some("labels.example"));
}

#[test]
fn a_cache_of_any_size_can_be_made() {
    let mut r = resolver(usize::MAX, false, None);
    r.resolve("did:plc:a", &row("https://a.example", 1), 0).unwrap();
    assert!(r.cached("did:plc:a").is_some());
}

#[test]
fn poll_takes_in_a_document() {
    let mut r = resolver(4, false, None);
    r.request("did:web:example.com", 0);
    r.take_requests();
    let done = Completed::Document {
        did: "did:web:example.com".to_owned(),
        doc: Some(document("did:web:example.com", 8)),
    };
    assert_eq!(r.poll(Some(done), 0).unwrap(), vec!["did:web:example.com"]);
    assert!(!r.is_inflight("did:web:example.com"));
    let b: Binding = r.cached("did:web:example.com").unwrap();
    assert_eq!(b.endpoint.as_deref(), Some("example.com"));
    assert_eq!(b.key, key_bytes(8));
}

#[test]
fn poll_discards_a_document_about_another_did() {
    let mut r = resolver(4, false, None);
    r.request("did:plc:aaa", 0);
    let done = Completed::Document {
        did: "did:plc:aaa".to_owned(),
        doc: Some(document("did:plc:zzz", 8)),
    };
    assert!(r.poll(Some(done), 0).unwrap().is_empty());
    assert!(r.is_inflight("did:plc:aaa"));
    assert!(r.cached("did:plc:aaa").is_none());
    assert!(r.cached("did:plc:zzz").is_none());
}

#[test]
fn poll_drops_an_unreadable_document_and_a_failed_fetch() {
    let mut r = resolver(4, false, None);
    r.request("did:plc:aaa", 0);
    let done = Completed::Document { did: "did:plc:aaa".to_owned(), doc: None };
    assert!(r.poll(Some(done), 0).unwrap().is_empty());
    let mut keyless = document("did:plc:aaa", 1);
    keyless.verification_method = None;
    let done = Completed::Document { did: "did:plc:aaa".to_owned(), doc: Some(keyless) };
    assert!(r.poll(Some(done), 0).unwrap().is_empty());
    let failed = Completed::Failed(Query::Did("did:plc:aaa".to_owned()));
    assert!(r.poll(Some(failed), 0).unwrap().is_empty());
    assert!(r.is_inflight("did:plc:aaa"));
}

fn op(did: &str, at: &str) -> Option<PlcOperation> {
    Some(PlcOperation { did: did.to_owned(), created_at: at.to_owned() })
}

#[test]
fn a_short_page_resolves_its_dids_and_gives_up_the_rest() {
    let mut r = resolver(4, true, Some("t0"));
    r.request("did:plc:aaa", 0);
    r.request("did:plc:bbb", 0);
    r.request("did:plc:ccc", 0);
    r.request("did:web:example.com", 0);
    r.take_requests();
    let page = Completed::Export {
        rows: vec![op("did:plc:bbb", "t1"), None, op("did:plc:zzz", "t2"), op("did:plc:bbb", "t3")],
        failure: None,
    };
    let dids = r.poll(Some(page), 9).unwrap();
    assert_eq!(dids[0], "did:plc:bbb");
    let mut rest: Vec<String> = dids[1..].to_vec();
    rest.sort();
    assert_eq!(rest, vec!["did:plc:aaa", "did:plc:ccc"]);
    assert!(!r.is_inflight("did:plc:aaa"));
    assert!(!r.is_inflight("did:plc:bbb"));
    assert!(!r.is_inflight("did:plc:ccc"));
    assert!(r.is_inflight("did:web:example.com"));
    assert!(r.take_requests().is_empty());
    // the import now stands at the last operation of the page
    r.request("did:plc:ddd", 10);
    assert_eq!(urls(&r.take_requests()), vec!["https://plc.directory/export?count=1000&after=t3"]);
}

#[test]
fn a_full_page_asks_for_the_next_one() {
    let mut r = resolver(4, true, Some("t0"));
    r.request("did:plc:aaa", 0);
    r.request("did:plc:late", 0);
    r.take_requests();
    let mut rows = Vec::new();
    for i in 0..1000 {
        rows.push(if i == 500 { op("did:plc:aaa", "t500") } else { None });
    }
    let page = Completed::Export { rows, failure: None };
    assert_eq!(r.poll(Some(page), 9).unwrap(), vec!["did:plc:aaa"]);
    assert!(r.is_inflight("did:plc:late"));
    assert_eq!(urls(&r.take_requests()), vec!["https://plc.directory/export?count=1000&after=t500"]);
}

#[test]
fn an_empty_page_keeps_the_import_time() {
    let mut r = resolver(4, true, Some("t0"));
    r.request("did:plc:aaa", 0);
    r.take_requests();
    let page = Completed::Export { rows: vec![], failure: None };
    assert_eq!(r.poll(Some(page), 9).unwrap(), vec!["did:plc:aaa"]);
    r.request("did:plc:bbb", 10);
    assert_eq!(urls(&r.take_requests()), vec!["https://plc.directory/export?count=1000&after=t0"]);
}

#[test]
fn a_page_that_could_not_be_kept_is_an_error() {
    let mut r = resolver(4, true, Some("t0"));
    r.request("did:plc:aaa", 0);
    r.take_requests();
    let page = Completed::Export {
        rows: vec![op("did:plc:aaa", "t1")],
        failure: Some("locked".to_owned()),
    };
    let e = r.poll(Some(page), 9).unwrap_err();
    assert!(matches!(e, ResolverError::Sqlite(m) if m == "locked"));
    assert!(r.is_inflight("did:plc:aaa"));
    r.request("did:plc:bbb", 10);
    assert_eq!(urls(&r.take_requests()), vec!["https://plc.directory/export?count=1000&after=t0"]);
}

#[test]
fn an_idle_poll_starts_the_import_when_it_is_due() {
    // made at 1000 with an interval of 60: the last import counts as made at 940
    let mut r = resolver(4, true, Some("t0"));
    assert!(r.poll(None, 1000).unwrap().is_empty());
    assert!(r.take_requests().is_empty());
    assert!(r.poll(None, 1001).unwrap().is_empty());
    assert_eq!(urls(&r.take_requests()), vec!["https://plc.directory/export?count=1000&after=t0"]);
    // the next is due sixty after it was asked for
    let page = Completed::Export { rows: vec![], failure: None };
    r.poll(Some(page), 1002).unwrap();
    assert!(r.poll(None, 1061).unwrap().is_empty());
    assert!(r.take_requests().is_empty());
    r.poll(None, 1062).unwrap();
    assert_eq!(r.take_requests().len(), 1);
}

#[test]
fn without_the_export_an_idle_poll_does_nothing() {
    let mut r = resolver(4, false, Some("t0"));
    assert!(r.poll(None, u64::MAX).unwrap().is_empty());
    assert!(r.take_requests().is_empty());
}

#[test]
fn every_poll_looks_after_the_import() {
    // made at 1000 with an interval of 60: the import is due after 1000
    let mut r = resolver(4, true, Some("t0"));
    let failed = Completed::Failed(Query::Did("did:web:example.com".to_owned()));
    assert!(r.poll(Some(failed), 1000).unwrap().is_empty());
    assert!(r.take_requests().is_empty());
    let failed = Completed::Failed(Query::Did("did:web:example.com".to_owned()));
    assert!(r.poll(Some(failed), 1001).unwrap().is_empty());
    assert_eq!(urls(&r.take_requests()), vec!["https://plc.directory/export?count=1000&after=t0"]);
    // a page that cannot be kept is an error, and nothing more is asked for
    let page = Completed::Export { rows: vec![], failure: Some("full".to_owned()) };
    assert!(r.poll(Some(page), 9000).is_err());
    assert!(r.take_requests().is_empty());
    // after a short page the next one is asked for at once where it is due
    r.poll(None, 9001).unwrap();
    assert_eq!(r.take_requests().len(), 1);
    let page = Completed::Export { rows: vec![op("did:plc:x", "t1")], failure: None };
    assert!(r.poll(Some(page), 9100).unwrap().is_empty());
    assert_eq!(urls(&r.take_requests()), vec!["https://plc.directory/export?count=1000&after=t1"]);
}
