use relay_core::event::{Blocks, Commit, DecodeError, Envelope, SubscribeReposEvent};
use relay_core::manager::{
    make_queue_key, make_queue_prefix, queue_did, replay_order_of, verify_commit_event, Manager,
    ManagerError, Outcome, Parsed, Queued, Reason,
};
use relay_core::resolver::{Completed, MirrorAnswer, Resolver, ResolverError};
use relay_core::tables::{HostRecord, RepoState};
use relay_core::types::{Cursor, Timestamp};

const HOST: &str = "example.com";

fn key_text() -> String {
    let mut bytes = vec![0xe7, 0x01];
    bytes.extend([7u8; 33]);
    multibase::encode(multibase::Base::Base58Btc, bytes)
}

fn lives_on(host: &str) -> MirrorAnswer {
    MirrorAnswer::Row { endpoint: Some(format!("https://{host}")), key: Some(key_text()) }
}

fn manager() -> Manager {
    let resolver = Resolver::new(16, false, false, "2024-01-01T00:00:00Z".to_owned(), 60, 1000);
    Manager::new(resolver, 30, 1000)
}

fn at(secs: i64) -> Timestamp {
    Timestamp { secs, nanos: 0 }
}

fn commit_event(seq: u64, did: &str, rev: &str, time: Timestamp) -> Parsed {
    Parsed::Event(SubscribeReposEvent::Commit {
        envelope: Envelope { seq, time, did: did.to_owned() },
        commit: b"cid2".to_vec(),
        blocks: Blocks::Decoded {
            commit: Commit { did: did.to_owned(), rev: rev.to_owned(), data: b"cid1".to_vec() },
            head: b"cid2".to_vec(),
        },
    })
}

fn sync_event(seq: u64, did: &str, rev: &str) -> Parsed {
    Parsed::Event(SubscribeReposEvent::Sync {
        envelope: Envelope { seq, time: at(100), did: did.to_owned() },
        blocks: Blocks::Decoded {
            commit: Commit { did: did.to_owned(), rev: rev.to_owned(), data: b"cid1".to_vec() },
            head: b"cid2".to_vec(),
        },
    })
}

fn published(outcome: &Outcome) -> Option<u64> {
    match outcome {
        Outcome::Published(c) => Some(c.get()),
        _ => None,
    }
}

fn dropped(outcome: &Outcome) -> Option<Reason> {
    match outcome {
        Outcome::Dropped(r) => Some(*r),
        _ => None,
    }
}

fn queued(outcome: &Outcome) -> Option<&str> {
    match outcome {
        Outcome::Queued(k) => Some(k.as_str()),
        _ => None,
    }
}

fn happy(m: &mut Manager) {
    let o = m
        .update(HOST, &commit_event(1, "did:plc:AAA", "3k0", at(100)), &lives_on(HOST), true, 0)
        .unwrap();
    assert_eq!(published(&o), Some(1));
}

#[test]
fn happy_path() {
    let mut m = manager();
    happy(&mut m);
    assert_eq!(m.cursor().get(), 1);
    let repo = m.repo("did:plc:AAA").unwrap();
    assert_eq!(repo.rev, "3k0");
    assert_eq!(repo.data, b"cid1");
    assert_eq!(repo.head, b"cid2");
    assert_eq!(m.host(HOST), Some(HostRecord { seq: 1, time: at(100) }));
}

#[test]
fn out_of_order_drop() {
    let mut m = manager();
    happy(&mut m);
    let o = m
        .update(HOST, &commit_event(1, "did:plc:AAA", "3k1", at(200)), &lives_on(HOST), true, 0)
        .unwrap();
    assert_eq!(dropped(&o), Some(Reason::Stale));
    assert_eq!(m.cursor().get(), 1);
    assert_eq!(m.repo("did:plc:AAA").unwrap().rev, "3k0");
    assert_eq!(m.host(HOST), Some(HostRecord { seq: 1, time: at(100) }));
}

#[test]
fn unresolved_did() {
    let mut m = manager();
    let frame = commit_event(1, "did:plc:BBB", "3k0", at(100));
    let o = m.update(HOST, &frame, &MirrorAnswer::NoRows, false, 0).unwrap();
    assert_eq!(queued(&o), Some("did:plc:BBB>example.com>1"));
    assert_eq!(m.cursor().get(), 0);
    assert!(m.repo("did:plc:BBB").is_none());
    assert_eq!(m.host(HOST), Some(HostRecord { seq: 1, time: at(100) }));
    assert!(m.resolver().is_inflight("did:plc:BBB"));
    let urls: Vec<String> = m.take_requests().into_iter().map(|r| r.url).collect();
    assert_eq!(urls, vec!["https://plc.directory/did:plc:BBB"]);

    // while the document is on its way a scan leaves the record where it is
    let records = vec![Queued { key: "did:plc:BBB>example.com>1".to_owned(), frame, verified: true }];
    assert!(m.scan_did("did:plc:BBB", &MirrorAnswer::NoRows, &records, 0).unwrap().is_none());

    // the document arrives
    let doc = relay_core::identity::DidDocument {
        id: "did:plc:BBB".to_owned(),
        service: Some(vec![relay_core::identity::Service {
            id: "#atproto_pds".to_owned(),
            service_endpoint: "https://example.com".to_owned(),
        }]),
        verification_method: Some(vec![relay_core::identity::VerificationMethod {
            id: "did:plc:BBB#atproto".to_owned(),
            public_key_multibase: Some(key_text()),
        }]),
    };
    let done = Completed::Document { did: "did:plc:BBB".to_owned(), doc: Some(doc) };
    assert_eq!(m.poll(Some(done), 0).unwrap(), vec!["did:plc:BBB"]);
    assert!(m.peek("did:plc:BBB", &MirrorAnswer::NoRows).is_some());
    let outcomes =
        m.scan_did("did:plc:BBB", &MirrorAnswer::NoRows, &records, 0).unwrap().unwrap();
    assert_eq!(outcomes.len(), 1);
    assert_eq!(published(&outcomes[0]), Some(1));
    assert_eq!(m.repo("did:plc:BBB").unwrap().rev, "3k0");
}

#[test]
fn pds_mismatch() {
    let mut m = manager();
    let frame = commit_event(1, "did:plc:CCC", "3k0", at(1_800_000_000));
    let o = m.update(HOST, &frame, &lives_on("other.com"), true, 0).unwrap();
    assert_eq!(queued(&o), Some("did:plc:CCC>example.com>1"));
    assert_eq!(m.cursor().get(), 0);
    assert_eq!(m.host(HOST), Some(HostRecord { seq: 1, time: at(1_800_000_000) }));
    // the identity was expired: it is forgotten and asked for again
    assert!(m.resolver().cached("did:plc:CCC").is_none());
    assert!(m.resolver().is_inflight("did:plc:CCC"));
    assert!(m.repo("did:plc:CCC").is_none());
}

#[test]
fn pds_mismatch_of_an_old_event_keeps_the_identity() {
    let mut m = manager();
    // the event is older than the point up to which the ledger was imported
    let frame = commit_event(1, "did:plc:CCC", "3k0", at(100));
    let o = m.update(HOST, &frame, &lives_on("other.com"), true, 0).unwrap();
    assert_eq!(queued(&o), Some("did:plc:CCC>example.com>1"));
    assert!(m.resolver().cached("did:plc:CCC").is_some());
    assert!(!m.resolver().is_inflight("did:plc:CCC"));
}

#[test]
fn signature_mismatch() {
    let mut m = manager();
    let frame = commit_event(1, "did:plc:DDD", "3k0", at(100));
    let o = m.update(HOST, &frame, &lives_on(HOST), false, 0).unwrap();
    assert_eq!(dropped(&o), Some(Reason::Signature));
    assert_eq!(m.cursor().get(), 0);
    assert!(m.repo("did:plc:DDD").is_none());
    // the host's sequence is not advanced by a dropped message
    assert_eq!(m.host(HOST), None);
    let o = m.update(HOST, &frame, &lives_on(HOST), true, 0).unwrap();
    assert_eq!(published(&o), Some(1));
}

#[test]
fn a_document_without_endpoint_is_served_from_any_host() {
    let mut m = manager();
    let mirror = MirrorAnswer::Row { endpoint: None, key: Some(key_text()) };
    let o = m
        .update("anywhere.example", &commit_event(1, "did:plc:EEE", "3k0", at(1)), &mirror, true, 0)
        .unwrap();
    assert_eq!(published(&o), Some(1));
}

#[test]
fn frames_that_hold_no_event_are_dropped() {
    let mut m = manager();
    for frame in [Parsed::Malformed, Parsed::Skipped] {
        let o = m.update(HOST, &frame, &MirrorAnswer::NoRows, true, 0).unwrap();
        assert_eq!(dropped(&o), Some(Reason::Unparsed));
    }
    assert_eq!(m.host(HOST), None);
}

#[test]
fn undecodable_and_inconsistent_commits_are_dropped() {
    let mut m = manager();
    let broken = Parsed::Event(SubscribeReposEvent::Commit {
        envelope: Envelope { seq: 1, time: at(1), did: "did:plc:AAA".to_owned() },
        commit: b"cid2".to_vec(),
        blocks: Blocks::Malformed,
    });
    let o = m.update(HOST, &broken, &lives_on(HOST), true, 0).unwrap();
    assert_eq!(dropped(&o), Some(Reason::Undecodable));
    let other_head = Parsed::Event(SubscribeReposEvent::Commit {
        envelope: Envelope { seq: 1, time: at(1), did: "did:plc:AAA".to_owned() },
        commit: b"cid2".to_vec(),
        blocks: Blocks::Decoded {
            commit: Commit {
                did: "did:plc:AAA".to_owned(),
                rev: "3k0".to_owned(),
                data: b"cid1".to_vec(),
            },
            head: b"cid9".to_vec(),
        },
    });
    let o = m.update(HOST, &other_head, &lives_on(HOST), true, 0).unwrap();
    assert_eq!(dropped(&o), Some(Reason::Inconsistent));
    let other_did = Parsed::Event(SubscribeReposEvent::Sync {
        envelope: Envelope { seq: 1, time: at(1), did: "did:plc:AAA".to_owned() },
        blocks: Blocks::Decoded {
            commit: Commit {
                did: "did:plc:ZZZ".to_owned(),
                rev: "3k0".to_owned(),
                data: b"cid1".to_vec(),
            },
            head: b"cid2".to_vec(),
        },
    });
    let o = m.update(HOST, &other_did, &lives_on(HOST), true, 0).unwrap();
    assert_eq!(dropped(&o), Some(Reason::Inconsistent));
    assert_eq!(m.host(HOST), None);
    assert_eq!(m.cursor().get(), 0);
    assert!(!m.resolver().is_inflight("did:plc:AAA"));
}

#[test]
fn events_without_a_commit_go_to_the_log() {
    let mut m = manager();
    let envelope = |seq| Envelope { seq, time: at(50), did: "did:plc:AAA".to_owned() };
    let frames = vec![
        Parsed::Event(SubscribeReposEvent::Account(envelope(1))),
        Parsed::Event(SubscribeReposEvent::Handle(envelope(2))),
        Parsed::Event(SubscribeReposEvent::Tombstone(envelope(3))),
        Parsed::Event(SubscribeReposEvent::Migrate(envelope(4))),
        Parsed::Event(SubscribeReposEvent::Info(envelope(5))),
    ];
    for (i, frame) in frames.iter().enumerate() {
        let o = m.update(HOST, frame, &MirrorAnswer::Failed("unused".to_owned()), false, 0).unwrap();
        assert_eq!(published(&o), Some(i as u64 + 1));
    }
    assert_eq!(m.host(HOST), Some(HostRecord { seq: 5, time: at(50) }));
    assert!(m.take_requests().is_empty());
}

#[test]
fn an_identity_event_expires_the_identity() {
    let mut m = manager();
    happy(&mut m);
    assert!(m.resolver().cached("did:plc:AAA").is_some());
    let identity = Parsed::Event(SubscribeReposEvent::Identity(Envelope {
        seq: 2,
        time: at(1_800_000_000),
        did: "did:plc:AAA".to_owned(),
    }));
    let o = m.update(HOST, &identity, &MirrorAnswer::NoRows, false, 0).unwrap();
    assert_eq!(published(&o), Some(2));
    assert!(m.resolver().cached("did:plc:AAA").is_none());
    assert!(m.resolver().is_inflight("did:plc:AAA"));
    // the next commit of the account waits until the identity is known again
    let o = m
        .update(HOST, &commit_event(3, "did:plc:AAA", "3k1", at(1_800_000_001)), &lives_on(HOST), true, 0)
        .unwrap();
    assert_eq!(queued(&o), Some("did:plc:AAA>example.com>3"));
}

#[test]
fn gaps_are_taken_and_the_time_never_goes_back() {
    let mut m = manager();
    happy(&mut m);
    let o = m
        .update(HOST, &commit_event(10, "did:plc:AAA", "3k1", at(90)), &lives_on(HOST), true, 0)
        .unwrap();
    assert_eq!(published(&o), Some(2));
    assert_eq!(m.host(HOST), Some(HostRecord { seq: 10, time: at(100) }));
    let o = m
        .update(HOST, &commit_event(5, "did:plc:AAA", "3k2", at(300)), &lives_on(HOST), true, 0)
        .unwrap();
    assert_eq!(dropped(&o), Some(Reason::Stale));
    // another host keeps its own count
    let o = m
        .update("other.example", &commit_event(1, "did:plc:FFF", "3k0", at(5)), &lives_on("other.example"), true, 0)
        .unwrap();
    assert_eq!(published(&o), Some(3));
}

#[test]
fn identity_is_needed_for_commits_in_sequence() {
    let mut m = manager();
    let commit = commit_event(1, "did:plc:AAA", "3k0", at(100));
    assert!(m.needs_identity(HOST, &commit));
    assert!(m.needs_identity(HOST, &sync_event(1, "did:plc:AAA", "3k0")));
    assert!(!m.needs_identity(HOST, &Parsed::Malformed));
    assert!(!m.needs_identity(HOST, &Parsed::Skipped));
    let account = Parsed::Event(SubscribeReposEvent::Account(Envelope {
        seq: 1,
        time: at(1),
        did: "did:plc:AAA".to_owned(),
    }));
    assert!(!m.needs_identity(HOST, &account));
    let broken = Parsed::Event(SubscribeReposEvent::Sync {
        envelope: Envelope { seq: 1, time: at(1), did: "did:plc:AAA".to_owned() },
        blocks: Blocks::Malformed,
    });
    assert!(!m.needs_identity(HOST, &broken));
    happy(&mut m);
    assert!(!m.needs_identity(HOST, &commit));
    assert!(m.needs_identity("other.example", &commit));
    assert!(m.needs_identity(HOST, &commit_event(2, "did:plc:AAA", "3k1", at(100))));
}

#[test]
fn gaps_are_counted() {
    let mut m = manager();
    assert_eq!(m.gap(HOST, 5), None);
    happy(&mut m);
    assert_eq!(m.gap(HOST, 1), None);
    assert_eq!(m.gap(HOST, 2), None);
    assert_eq!(m.gap(HOST, 3), Some(1));
    assert_eq!(m.gap(HOST, 10), Some(8));
    assert_eq!(m.gap(HOST, 0), None);
    assert_eq!(m.gap("other.example", 10), None);
}

#[test]
fn a_revision_that_goes_back_is_dropped() {
    let mut m = manager();
    let o = m
        .update(HOST, &commit_event(1, "did:plc:AAA", "3k5", at(100)), &lives_on(HOST), true, 0)
        .unwrap();
    assert_eq!(published(&o), Some(1));
    let o = m
        .update(HOST, &commit_event(2, "did:plc:AAA", "3k4", at(100)), &lives_on(HOST), true, 0)
        .unwrap();
    assert_eq!(dropped(&o), Some(Reason::Revision));
    assert_eq!(m.repo("did:plc:AAA").unwrap().rev, "3k5");
    assert_eq!(m.host(HOST), Some(HostRecord { seq: 1, time: at(100) }));
    let o = m.update(HOST, &sync_event(2, "did:plc:AAA", "3k4"), &lives_on(HOST), true, 0).unwrap();
    assert_eq!(dropped(&o), Some(Reason::Revision));
    // the same commit again is taken
    let o = m
        .update(HOST, &commit_event(2, "did:plc:AAA", "3k5", at(100)), &lives_on(HOST), true, 0)
        .unwrap();
    assert_eq!(published(&o), Some(2));
    let o = m.update(HOST, &sync_event(3, "did:plc:AAA", "3k6"), &lives_on(HOST), true, 0).unwrap();
    assert_eq!(published(&o), Some(3));
    assert_eq!(m.repo("did:plc:AAA").unwrap().rev, "3k6");
}

#[test]
fn verify_commit_event_compares_with_the_recorded_state() {
    let prev = RepoState { rev: "3k5".to_owned(), data: b"d".to_vec(), head: b"h".to_vec() };
    let commit = |rev: &str, data: &[u8]| Commit {
        did: "did:plc:AAA".to_owned(),
        rev: rev.to_owned(),
        data: data.to_vec(),
    };
    assert!(verify_commit_event(&commit("3k6", b"x"), &b"y".to_vec(), &prev));
    assert!(!verify_commit_event(&commit("3k4", b"d"), &b"h".to_vec(), &prev));
    assert!(verify_commit_event(&commit("3k5", b"d"), &b"h".to_vec(), &prev));
    assert!(!verify_commit_event(&commit("3k5", b"x"), &b"h".to_vec(), &prev));
    assert!(!verify_commit_event(&commit("3k5", b"d"), &b"x".to_vec(), &prev));
}

#[test]
fn a_failing_mirror_stops_the_validator() {
    let mut m = manager();
    let frame = commit_event(1, "did:plc:AAA", "3k0", at(100));
    let e = m.update(HOST, &frame, &MirrorAnswer::Failed("disk".to_owned()), true, 0).unwrap_err();
    assert!(matches!(&e, ManagerError::Resolver(ResolverError::Sqlite(m)) if m == "disk"));
    assert_eq!(e.message(), "resolver error: sqlite error: disk");
    assert_eq!(m.host(HOST), None);
    assert_eq!(m.cursor().get(), 0);
    let e = m.scan_did("did:plc:AAA", &MirrorAnswer::Failed("disk".to_owned()), &vec![], 0);
    assert!(matches!(e, Err(ManagerError::Resolver(ResolverError::Sqlite(_)))));
}

#[test]
fn manager_error_messages() {
    assert_eq!(ManagerError::Parse("x".to_owned()).message(), "parse error: x");
    assert_eq!(ManagerError::Serialize("x".to_owned()).message(), "serialize error: x");
    assert_eq!(ManagerError::Time("x".to_owned()).message(), "time error: x");
    assert_eq!(ManagerError::Sqlite("x".to_owned()).message(), "sqlite error: x");
    assert_eq!(ManagerError::Fjall("x".to_owned()).message(), "fjall error: x");
    assert_eq!(ManagerError::DecodeError("x".to_owned()).message(), "decode error: x");
    assert_eq!(
        ManagerError::Resolver(ResolverError::SizeError).message(),
        "resolver error: size error"
    );
}

#[test]
fn queue_keys() {
    assert_eq!(make_queue_key("did:plc:BBB", "example.com", 1), "did:plc:BBB>example.com>1");
    assert_eq!(
        make_queue_key("did:web:a.example", "b.example", u64::MAX),
        "did:web:a.example>b.example>18446744073709551615"
    );
    assert_eq!(make_queue_prefix("did:plc:BBB"), "did:plc:BBB>");
    assert_eq!(queue_did("did:plc:BBB>example.com>1"), "did:plc:BBB");
    assert_eq!(queue_did("nokey"), "nokey");
}

#[test]
fn scan_decides_on_each_record_and_goes_on() {
    let mut m = manager();
    let did = "did:plc:BBB";
    let record = |key: &str, frame: Parsed, verified: bool| Queued {
        key: key.to_owned(),
        frame,
        verified,
    };
    let records = vec![
        record("did:plc:BBB>example.com>1", commit_event(1, did, "3k1", at(1)), true),
        record("did:plc:BBB>elsewhere.example>7", commit_event(7, did, "3k2", at(1)), true),
        record("did:plc:BBB>example.com>2", commit_event(2, did, "3k2", at(1)), false),
        record("did:plc:BBB>example.com>3", commit_event(3, did, "3k0", at(1)), true),
        record("did:plc:BBB>example.com>4", Parsed::Malformed, true),
        record("did:plc:BBBB>example.com>5", commit_event(5, did, "3k3", at(1)), true),
        record("did:plc:BBB", commit_event(5, did, "3k3", at(1)), true),
        record("did:plc:BBB>example.com>6", commit_event(6, "did:plc:CCC", "3k3", at(1)), true),
        record(
            "did:plc:BBB>example.com>8",
            Parsed::Event(SubscribeReposEvent::Account(Envelope {
                seq: 8,
                time: at(1),
                did: did.to_owned(),
            })),
            true,
        ),
        record("did:plc:BBB>example.com>9", commit_event(9, did, "3k4", at(1)), true),
    ];
    let order = replay_order_of(&records);
    assert_eq!(order, vec![4, 0, 2, 3, 5, 6, 7, 1, 8, 9]);
    let replayed = m.scan_did(did, &lives_on(HOST), &records, 0).unwrap().unwrap();
    assert_eq!(replayed.len(), records.len());
    // what became of each record, by its place in `records`
    let mut outcomes: Vec<Option<Outcome>> = vec![None; records.len()];
    for (idx, outcome) in order.into_iter().zip(replayed) {
        outcomes[idx] = Some(outcome);
    }
    let outcomes: Vec<Outcome> = outcomes.into_iter().map(|o| o.unwrap()).collect();
    assert_eq!(published(&outcomes[0]), Some(1));
    assert_eq!(dropped(&outcomes[1]), Some(Reason::Host));
    assert_eq!(dropped(&outcomes[2]), Some(Reason::Signature));
    assert_eq!(dropped(&outcomes[3]), Some(Reason::Revision));
    assert_eq!(dropped(&outcomes[4]), Some(Reason::Unparsed));
    assert_eq!(dropped(&outcomes[5]), Some(Reason::Key));
    assert_eq!(dropped(&outcomes[6]), Some(Reason::Key));
    assert_eq!(dropped(&outcomes[7]), Some(Reason::Inconsistent));
    assert_eq!(dropped(&outcomes[8]), Some(Reason::Undecodable));
    assert_eq!(published(&outcomes[9]), Some(2));
    assert_eq!(m.cursor().get(), 2);
    assert_eq!(m.repo(did).unwrap().rev, "3k4");
    // a scan does not touch what is recorded of the hosts
    assert_eq!(m.host(HOST), None);
}

#[test]
fn cursors_rise_over_arrivals_and_scans() {
    let resolver = Resolver::new(16, true, false, "2024-01-01T00:00:00Z".to_owned(), 60, 1000);
    let mut m = Manager::new(resolver, 30, 1000);
    let mut cursors = Vec::new();
    let waiting = commit_event(1, "did:plc:BBB", "3k0", at(1));
    let o = m.update(HOST, &waiting, &MirrorAnswer::NoRows, true, 0).unwrap();
    assert_eq!(queued(&o), Some("did:plc:BBB>example.com>1"));
    for seq in 2..6 {
        let o = m
            .update(HOST, &commit_event(seq, "did:plc:AAA", "3k0", at(1)), &lives_on(HOST), true, 0)
            .unwrap();
        cursors.extend(published(&o));
    }
    // the import ends: the DID is no longer awaited, and the mirror now holds it
    let page = Completed::Export {
        rows: vec![],
        failure: None,
    };
    assert_eq!(m.poll(Some(page), 0).unwrap(), vec!["did:plc:BBB"]);
    let records = vec![Queued {
        key: "did:plc:BBB>example.com>1".to_owned(),
        frame: waiting,
        verified: true,
    }];
    let outcomes = m.scan_did("did:plc:BBB", &lives_on(HOST), &records, 0).unwrap().unwrap();
    cursors.extend(published(&outcomes[0]));
    let o = m
        .update(HOST, &commit_event(6, "did:plc:BBB", "3k1", at(1)), &MirrorAnswer::NoRows, true, 0)
        .unwrap();
    cursors.extend(published(&o));
    assert_eq!(cursors, vec![1, 2, 3, 4, 5, 6]);
    assert_eq!(m.cursor().get(), 6);
}

#[test]
fn messages_taken_from_a_host_bear_rising_numbers() {
    let mut m = manager();
    let mut taken = Vec::new();
    for seq in [3u64, 1, 3, 4, 2, 9, 9, 8, 10] {
        let mirror = if seq % 2 == 0 { MirrorAnswer::NoRows } else { lives_on(HOST) };
        let did = if seq % 2 == 0 { "did:plc:EVEN" } else { "did:plc:ODD" };
        let o = m.update(HOST, &commit_event(seq, did, "3k0", at(1)), &mirror, true, 0).unwrap();
        if dropped(&o).is_none() {
            taken.push(seq);
        }
    }
    assert_eq!(taken, vec![3, 4, 9, 10]);
}

#[test]
fn run_puts_in_what_was_kept() {
    let mut m = manager();
    m.run(
        vec![("a.example".to_owned(), 7), ("b.example".to_owned(), 9), ("a.example".to_owned(), 8)],
        vec![(
            "did:plc:AAA".to_owned(),
            RepoState { rev: "3k5".to_owned(), data: b"d".to_vec(), head: b"h".to_vec() },
        )],
        Some(Cursor::new(41)),
    );
    assert_eq!(m.host("a.example"), Some(HostRecord { seq: 8, time: Timestamp::epoch() }));
    assert_eq!(m.host("b.example"), Some(HostRecord { seq: 9, time: Timestamp::epoch() }));
    assert_eq!(m.repo("did:plc:AAA").unwrap().rev, "3k5");
    assert_eq!(m.cursor().get(), 41);
    // the log goes on behind its last record, and the hosts from where they stood
    let o = m
        .update("a.example", &commit_event(8, "did:plc:AAA", "3k6", at(1)), &lives_on("a.example"), true, 0)
        .unwrap();
    assert_eq!(dropped(&o), Some(Reason::Stale));
    let o = m
        .update("a.example", &commit_event(9, "did:plc:AAA", "3k6", at(1)), &lives_on("a.example"), true, 0)
        .unwrap();
    assert_eq!(published(&o), Some(42));
}

#[test]
fn run_on_an_empty_log_starts_before_the_first_cursor() {
    let mut m = manager();
    m.run(vec![], vec![], None);
    assert_eq!(m.cursor().get(), 0);
    happy(&mut m);
    assert_eq!(m.cursor().get(), 1);
}

#[test]
fn persist_writes_the_hosts_heard_of() {
    let mut m = manager();
    m.run(vec![("silent.example".to_owned(), 7), ("loud.example".to_owned(), 3)], vec![], None);
    assert!(m.persist().is_empty());
    happy(&mut m);
    m.update("loud.example", &commit_event(4, "did:plc:AAA", "3k0", at(100)), &lives_on("loud.example"), true, 0)
        .unwrap();
    let mut rows = m.persist();
    rows.sort_by(|a, b| a.0.cmp(&b.0));
    assert_eq!(
        rows,
        vec![
            ("example.com".to_owned(), HostRecord { seq: 1, time: at(100) }),
            ("loud.example".to_owned(), HostRecord { seq: 4, time: at(100) }),
        ]
    );
}

#[test]
fn persist_is_due_after_the_interval() {
    // made at 1000 with an interval of 30: the last write counts as made at 970
    let mut m = manager();
    assert!(!m.persist_due(1000));
    assert!(m.persist_due(1001));
    assert!(!m.persist_due(1031));
    assert!(m.persist_due(1032));
}

#[test]
fn snapshot_holds_hosts_and_repositories() {
    let mut m = manager();
    happy(&mut m);
    m.update(HOST, &commit_event(2, "did:plc:GGG", "3k0", at(100)), &lives_on(HOST), true, 0).unwrap();
    let (hosts, mut repos) = m.snapshot();
    assert_eq!(hosts, vec![("example.com".to_owned(), HostRecord { seq: 2, time: at(100) })]);
    repos.sort_by(|a, b| a.0.cmp(&b.0));
    let dids: Vec<&str> = repos.iter().map(|r| r.0.as_str()).collect();
    assert_eq!(dids, vec!["did:plc:AAA", "did:plc:GGG"]);
    assert_eq!(repos[0].1.rev, "3k0");
}

#[test]
fn event_accessors() {
    let Parsed::Event(event) = commit_event(3, "did:plc:AAA", "3k0", at(9)) else {
        unreachable!()
    };
    assert_eq!(event.type_(), "#commit");
    assert_eq!(event.seq(), 3);
    assert_eq!(event.time(), at(9));
    assert_eq!(event.did(), "did:plc:AAA");
    let (commit, head) = event.commit().unwrap().unwrap();
    assert_eq!(commit.rev, "3k0");
    assert_eq!(head, b"cid2");
    assert!(event.validate(commit, head));
    assert!(!event.validate(commit, &b"other".to_vec()));
    let identity = SubscribeReposEvent::Identity(Envelope {
        seq: 1,
        time: at(1),
        did: "did:plc:AAA".to_owned(),
    });
    assert_eq!(identity.type_(), "#identity");
    assert!(matches!(identity.commit(), Ok(None)));
    let broken = SubscribeReposEvent::Sync {
        envelope: Envelope { seq: 1, time: at(1), did: "did:plc:AAA".to_owned() },
        blocks: Blocks::Malformed,
    };
    assert_eq!(broken.type_(), "#sync");
    assert!(matches!(broken.commit(), Err(DecodeError)));
}

#[test]
fn a_scan_replays_by_rising_upstream_number() {
    let mut m = manager();
    let did = "did:plc:BBB";
    // as the store hands them out: keys sort as text, so 10 comes before 9
    let records: Vec<Queued> = [(10u64, "3ka"), (11, "3kb"), (9, "3k9")]
        .into_iter()
        .map(|(seq, rev)| Queued {
            key: format!("did:plc:BBB>example.com>{seq}"),
            frame: commit_event(seq, did, rev, at(1)),
            verified: true,
        })
        .collect();
    assert_eq!(replay_order_of(&records), vec![2, 0, 1]);
    let replayed = m.scan_did(did, &lives_on(HOST), &records, 0).unwrap().unwrap();
    let cursors: Vec<Option<u64>> = replayed.iter().map(published).collect();
    assert_eq!(cursors, vec![Some(1), Some(2), Some(3)]);
    assert_eq!(m.repo(did).unwrap().rev, "3kb");
}

#[test]
fn replay_order_keeps_equal_numbers_as_handed_in() {
    let record = |seq: u64| Queued {
        key: format!("did:plc:BBB>example.com>{seq}"),
        frame: commit_event(seq, "did:plc:BBB", "3k0", at(1)),
        verified: true,
    };
    let records = vec![record(5), record(3), record(5), record(3), record(1)];
    assert_eq!(replay_order_of(&records), vec![4, 1, 3, 0, 2]);
    assert_eq!(replay_order_of(&Vec::new()), Vec::<usize>::new());
}

#[test]
fn a_relay_of_labels_keeps_no_repositories() {
    let resolver = Resolver::new(16, false, true, "2024-01-01T00:00:00Z".to_owned(), 60, 0);
    let mut m = Manager::new(resolver, 30, 0);
    // what an event of labels announces is not held against its head
    let labels = Parsed::Event(SubscribeReposEvent::Commit {
        envelope: Envelope { seq: 1, time: at(1), did: "did:plc:AAA".to_owned() },
        commit: b"cid2".to_vec(),
        blocks: Blocks::Decoded {
            commit: Commit {
                did: "did:plc:AAA".to_owned(),
                rev: "3k5".to_owned(),
                data: b"cid1".to_vec(),
            },
            head: b"other".to_vec(),
        },
    });
    assert!(m.needs_identity(HOST, &labels));
    let o = m.update(HOST, &labels, &lives_on(HOST), true, 0).unwrap();
    assert_eq!(published(&o), Some(1));
    assert!(m.repo("did:plc:AAA").is_none());
    // nor is a revision held against an earlier one
    let o = m
        .update(HOST, &commit_event(2, "did:plc:AAA", "3k0", at(1)), &lives_on(HOST), true, 0)
        .unwrap();
    assert_eq!(published(&o), Some(2));
    // the signature and the host still count
    let o = m
        .update(HOST, &commit_event(3, "did:plc:AAA", "3k0", at(1)), &lives_on(HOST), false, 0)
        .unwrap();
    assert_eq!(dropped(&o), Some(Reason::Signature));
    assert!(m.snapshot().1.is_empty());
}
