//! The validator: from upstream messages to the ordered log.
//!
//! The manager decides what becomes of each message: it is dropped, it is published
//! under the next cursor of the log, or it waits in the queue until the identity of
//! its repository is known. The manager does no I/O itself: the caller parses the
//! frame, asks the mirror, checks the signature, and carries out what is decided.

use vstd::prelude::*;
use vstd::string::*;

use crate::cache::{bound_of, sized, Binding, Bound};
use crate::event::{bytes_equal, Blocks, Commit, SubscribeReposEvent};
use crate::resolver::{
    Completed, MirrorAnswer, Request, Resolver, ResolverError, ResolverState, fetches,
};
use crate::tables::{
    host_entries, lists_hosts, lists_repos, lookup, no_hosts, no_repos, repo_entries, HostRecord,
    Hosts, Repo, RepoState, Repos,
};
use crate::text::{
    cut, decimal, decimal_string, first_piece, le, lex_le, piece, same, split_once,
};
use crate::types::{Cursor, Timestamp};

verus! {

/// What parsing an upstream frame gave.
#[derive(Clone, Debug)]
pub enum Parsed {
    Event(SubscribeReposEvent),
    /// A frame that holds no event for the log.
    Skipped,
    /// The frame could not be parsed.
    Malformed,
}

/// Why a message was dropped.
#[derive(Clone, Copy, Debug, PartialEq, Eq, Structural)]
pub enum Reason {
    /// The frame holds no event.
    Unparsed,
    /// The host has sent this sequence number, or a later one, before.
    Stale,
    /// The event's blocks could not be decoded.
    Undecodable,
    /// The decoded commit is not the one that the event announces.
    Inconsistent,
    /// The commit is not signed by the key of its repository.
    Signature,
    /// The commit does not follow the state of its repository.
    Revision,
    /// The message came from a host that is not the repository's.
    Host,
    /// The queue record's key does not name the DID and a host.
    Key,
}

/// What became of a message.
#[derive(Clone, Debug)]
pub enum Outcome {
    Dropped(Reason),
    /// The event goes into the log under this cursor, which it also carries.
    Published(Cursor),
    /// The frame goes into the queue under this key.
    Queued(String),
}

/// What became of a message, as plain values.
pub enum Act {
    Dropped(Reason),
    Published(nat),
    Queued(Seq<char>),
}

impl Outcome {
    pub open spec fn act(self) -> Act {
        match self {
            Outcome::Dropped(r) => Act::Dropped(r),
            Outcome::Published(c) => Act::Published(c.0 as nat),
            Outcome::Queued(k) => Act::Queued(k@),
        }
    }
}

pub open spec fn acts(v: Seq<Outcome>) -> Seq<Act> {
    v.map_values(|o: Outcome| o.act())
}

#[derive(Clone, Debug)]
pub enum ManagerError {
    Parse(String),
    Serialize(String),
    Resolver(ResolverError),
    Time(String),
    Sqlite(String),
    Fjall(String),
    DecodeError(String),
}

impl ManagerError {
    /// The error in words.
    pub fn message(&self) -> (r: String)
        ensures
            r@ == match *self {
                ManagerError::Parse(m) => "parse error: "@ + m@,
                ManagerError::Serialize(m) => "serialize error: "@ + m@,
                ManagerError::Resolver(e) => "resolver error: "@ + match e {
                    ResolverError::Sqlite(m) => "sqlite error: "@ + m@,
                    ResolverError::SizeError => "size error"@,
                    ResolverError::Http(m) => "http error: "@ + m@,
                },
                ManagerError::Time(m) => "time error: "@ + m@,
                ManagerError::Sqlite(m) => "sqlite error: "@ + m@,
                ManagerError::Fjall(m) => "fjall error: "@ + m@,
                ManagerError::DecodeError(m) => "decode error: "@ + m@,
            },
    {
        match self {
            ManagerError::Parse(m) => String::from_str("parse error: ").concat(m.as_str()),
            ManagerError::Serialize(m) => String::from_str("serialize error: ").concat(m.as_str()),
            ManagerError::Resolver(e) => {
                let inner = e.message();
                String::from_str("resolver error: ").concat(inner.as_str())
            },
            ManagerError::Time(m) => String::from_str("time error: ").concat(m.as_str()),
            ManagerError::Sqlite(m) => String::from_str("sqlite error: ").concat(m.as_str()),
            ManagerError::Fjall(m) => String::from_str("fjall error: ").concat(m.as_str()),
            ManagerError::DecodeError(m) => String::from_str("decode error: ").concat(m.as_str()),
        }
    }
}

/// A record of the queue, read back: its key, what parsing its frame gave, and
/// whether the commit is signed by the key that its DID resolves to.
#[derive(Clone, Debug)]
pub struct Queued {
    pub key: String,
    pub frame: Parsed,
    pub verified: bool,
}

/// The key under which a message waits in the queue.
pub open spec fn queue_key(did: Seq<char>, host: Seq<char>, seq: u64) -> Seq<char> {
    did + ">"@ + host + ">"@ + decimal(seq as nat)
}

/// The start of the keys under which the messages of `did` wait in the queue.
pub open spec fn queue_prefix(did: Seq<char>) -> Seq<char> {
    did + ">"@
}

/// The DID that a queue key names: what stands before its first `>`.
pub open spec fn key_did(key: Seq<char>) -> Seq<char> {
    piece(key, '>')
}

/// The host that a queue key names: what stands between its first `>` and the next.
pub open spec fn key_host(key: Seq<char>) -> Option<Seq<char>> {
    match cut(key, '>') {
        Some((_, rest)) => Some(piece(rest, '>')),
        None => None,
    }
}

/// The upstream sequence number that a record of the queue bears; zero where its
/// frame holds no event.
pub open spec fn number_of(record: Queued) -> u64 {
    match record.frame {
        Parsed::Event(event) => event.envelope().seq,
        _ => 0,
    }
}

/// Where the record `i` goes in `order`: behind the last record that bears no
/// greater number.
pub open spec fn place(records: Seq<Queued>, order: Seq<usize>, i: int) -> int
    decreases order.len(),
{
    if order.len() == 0 {
        0
    } else if number_of(records[order.last() as int]) <= number_of(records[i]) {
        order.len() as int
    } else {
        place(records, order.drop_last(), i)
    }
}

/// The order in which the first `n` records of a queue are replayed, as places in
/// `records`: each record goes behind those handed in before it that bear no
/// greater upstream sequence number, so that a host's messages are replayed as
/// they arrived.
pub open spec fn replay_order(records: Seq<Queued>, n: nat) -> Seq<usize>
    decreases n,
{
    if n == 0 {
        Seq::empty()
    } else {
        let order = replay_order(records, (n - 1) as nat);
        order.insert(place(records, order, n - 1), (n - 1) as usize)
    }
}

/// The records in the order in which they are replayed.
pub open spec fn arranged(records: Seq<Queued>) -> Seq<Queued> {
    replay_order(records, records.len()).map_values(|k: usize| records[k as int])
}

/// Whether the numbers rise along `order`, and `order` names each of the first `n`
/// records once.
pub open spec fn rises(records: Seq<Queued>, order: Seq<usize>, n: nat) -> bool {
    &&& order.len() == n
    &&& forall|a: int| 0 <= a < order.len() ==> (#[trigger] order[a]) < n
    &&& forall|k: usize| k < n ==> #[trigger] order.contains(k)
    &&& forall|a: int, b: int|
        0 <= a < b < order.len() ==> number_of(records[(#[trigger] order[a]) as int]) <= number_of(
            records[(#[trigger] order[b]) as int],
        )
}

proof fn lemma_place(records: Seq<Queued>, order: Seq<usize>, i: int)
    ensures
        0 <= place(records, order, i) <= order.len(),
        forall|k: int|
            place(records, order, i) <= k < order.len() ==> number_of(
                records[(#[trigger] order[k]) as int],
            ) > number_of(records[i]),
        place(records, order, i) > 0 ==> number_of(
            records[order[place(records, order, i) - 1] as int],
        ) <= number_of(records[i]),
    decreases order.len(),
{
    if order.len() > 0 && number_of(records[order.last() as int]) > number_of(records[i]) {
        lemma_place(records, order.drop_last(), i);
        let p = place(records, order.drop_last(), i);
        assert forall|k: int| p <= k < order.len() implies number_of(
            records[(#[trigger] order[k]) as int],
        ) > number_of(records[i]) by {
            if k < order.len() - 1 {
                assert(order.drop_last()[k] == order[k]);
            }
        }
        if p > 0 {
            assert(order.drop_last()[p - 1] == order[p - 1]);
        }
    }
}

/// The records of a queue are replayed by rising upstream sequence number, each of
/// them once.
pub proof fn law_replay_order_rises(records: Seq<Queued>, n: nat)
    requires
        n <= records.len(),
        n <= usize::MAX,
    ensures
        rises(records, replay_order(records, n), n),
    decreases n,
{
    if n > 0 {
        let m = (n - 1) as nat;
        let order = replay_order(records, m);
        law_replay_order_rises(records, m);
        lemma_place(records, order, n - 1);
        let p = place(records, order, n - 1);
        let next = order.insert(p, m as usize);
        assert forall|k: usize| k < n implies #[trigger] next.contains(k) by {
            if k < m {
                assert(order.contains(k));
                let a = choose|a: int| 0 <= a < order.len() && order[a] == k;
                if a < p {
                    assert(next[a] == k);
                } else {
                    assert(next[a + 1] == k);
                }
            } else {
                assert(next[p] == k);
            }
        }
        assert forall|a: int, b: int| 0 <= a < b < next.len() implies number_of(
            records[(#[trigger] next[a]) as int],
        ) <= number_of(records[(#[trigger] next[b]) as int]) by {
            if b < p {
                assert(next[a] == order[a] && next[b] == order[b]);
            } else if b == p {
                assert(next[a] == order[a]);
                if a < p - 1 {
                    assert(number_of(records[order[a] as int]) <= number_of(
                        records[order[p - 1] as int],
                    ));
                }
            } else if a < p {
                assert(next[a] == order[a] && next[b] == order[b - 1]);
                if a < b - 1 {
                    assert(number_of(records[order[a] as int]) <= number_of(
                        records[order[b - 1] as int],
                    ));
                }
            } else if a == p {
                assert(next[b] == order[b - 1]);
            } else {
                assert(next[a] == order[a - 1] && next[b] == order[b - 1]);
            }
        }
    }
}

/// The hosts of `base` with those of `rows` put in, each at the sequence number that
/// its row gives and at the epoch; a later row replaces an earlier one.
pub open spec fn with_hosts(base: Map<Seq<char>, HostRecord>, rows: Seq<(String, u64)>) -> Map<
    Seq<char>,
    HostRecord,
>
    decreases rows.len(),
{
    if rows.len() == 0 {
        base
    } else {
        with_hosts(base, rows.drop_last()).insert(
            rows.last().0@,
            HostRecord { seq: rows.last().1, time: Timestamp { secs: 0, nanos: 0 } },
        )
    }
}

/// The repositories of `base` with those of `rows` put in; a later row replaces an
/// earlier one.
pub open spec fn with_repos(base: Map<Seq<char>, Repo>, rows: Seq<(String, RepoState)>) -> Map<
    Seq<char>,
    Repo,
>
    decreases rows.len(),
{
    if rows.len() == 0 {
        base
    } else {
        with_repos(base, rows.drop_last()).insert(rows.last().0@, rows.last().1.repo())
    }
}

/// The hosts that have sent something since the validator started: those whose
/// time is not the epoch.
pub open spec fn heard(hosts: Map<Seq<char>, HostRecord>) -> Map<Seq<char>, HostRecord> {
    Map::new(|k: Seq<char>| hosts.contains_key(k) && !hosts[k].time.is_epoch(), |k: Seq<char>| hosts[k])
}

/// Whether a commit follows the state of its repository: its revision is not older,
/// and a commit of the same revision is the same commit.
pub open spec fn follows(commit: Commit, head: Seq<u8>, prev: Repo) -> bool {
    &&& lex_le(prev.0, commit.rev@)
    &&& commit.rev@ == prev.0 ==> commit.data@ == prev.1 && head == prev.2
}

/// The validator's state as plain values.
pub struct ManagerState {
    /// What each host last sent.
    pub hosts: Map<Seq<char>, HostRecord>,
    /// Where each repository stands.
    pub repos: Map<Seq<char>, Repo>,
    pub resolver: ResolverState,
    /// Whether the relay is one of labels: then an event bears labels in place of a
    /// commit, and no state of repositories is kept.
    pub labeler: bool,
    /// The last cursor given out.
    pub cursor: nat,
    /// When the hosts were last written out.
    pub last: u64,
    /// The time to let pass between two writes of the hosts.
    pub interval: u64,
}

impl ManagerState {
    /// Whether `host` has sent `seq`, or a later number, before.
    pub open spec fn stale(self, host: Seq<char>, seq: u64) -> bool {
        match lookup(self.hosts, host) {
            Some(r) => r.seq >= seq,
            None => false,
        }
    }

    /// The time of an event from `host`, never earlier than what was seen on it.
    pub open spec fn clamped(self, host: Seq<char>, time: Timestamp) -> Timestamp {
        match lookup(self.hosts, host) {
            Some(r) => time.latest(r.time),
            None => time,
        }
    }

    /// The number of sequence numbers that `host` has left out before `seq`, if it
    /// has left any out.
    pub open spec fn missed(self, host: Seq<char>, seq: u64) -> Option<u64> {
        match lookup(self.hosts, host) {
            Some(r) => if r.seq + 1 < seq {
                Some((seq - r.seq - 1) as u64)
            } else {
                None
            },
            None => None,
        }
    }

    /// The state after `host` was noted to have sent `seq` at `time`.
    pub open spec fn noted(self, host: Seq<char>, seq: u64, time: Timestamp) -> ManagerState {
        ManagerState { hosts: self.hosts.insert(host, HostRecord { seq, time }), ..self }
    }

    /// The state after the next cursor was given out.
    pub open spec fn advanced(self) -> ManagerState {
        ManagerState { cursor: self.cursor + 1, ..self }
    }

    /// What becomes of a commit whose signature holds: it is dropped where it does
    /// not follow the state of its repository; otherwise it is published under the
    /// next cursor and becomes the state of its repository. Labels are published
    /// as they are.
    pub open spec fn admitted(self, commit: Commit, head: Seq<u8>) -> (ManagerState, Act) {
        let prev = lookup(self.repos, commit.did@);
        if self.labeler {
            (self.advanced(), Act::Published(self.cursor + 1))
        } else if prev is Some && !follows(commit, head, prev->0) {
            (self, Act::Dropped(Reason::Revision))
        } else {
            (
                ManagerState {
                    repos: self.repos.insert(commit.did@, (commit.rev@, commit.data@, head)),
                    ..self.advanced()
                },
                Act::Published(self.cursor + 1),
            )
        }
    }

    /// Whether what becomes of this message turns on the identity of its DID: it
    /// does for an event in the host's sequence that bears the commit that it
    /// announces.
    pub open spec fn identifies(self, host: Seq<char>, frame: Parsed) -> bool {
        &&& frame matches Parsed::Event(event)
        &&& !self.stale(host, event.envelope().seq)
        &&& event.blocks() matches Some(Blocks::Decoded { commit, head })
        &&& self.labeler || event.consistent(commit, head)
    }

    /// Whether taking in this message fails: it does where resolving the identity
    /// turns to the mirror and the mirror failed.
    pub open spec fn fails(self, host: Seq<char>, frame: Parsed, mirror: MirrorAnswer) -> bool {
        &&& self.identifies(host, frame)
        &&& frame matches Parsed::Event(event)
        &&& self.resolver.consults(event.envelope().did@)
        &&& mirror is Failed
    }

    /// What becomes of a message from `host`, and the state after it, where the
    /// mirror gives `row` for the event's DID and `verified` says whether the commit
    /// is signed by the key that the DID resolves to.
    pub open spec fn updated(
        self,
        host: Seq<char>,
        frame: Parsed,
        row: Option<Bound>,
        verified: bool,
        now: u64,
    ) -> (ManagerState, Act) {
        match frame {
            Parsed::Event(event) => {
                let seq = event.envelope().seq;
                let did = event.envelope().did@;
                let time = self.clamped(host, event.envelope().time);
                if self.stale(host, seq) {
                    (self, Act::Dropped(Reason::Stale))
                } else {
                    match event.blocks() {
                        None => {
                            let resolver = if event is Identity {
                                self.resolver.expired(did, event.envelope().time, now)
                            } else {
                                self.resolver
                            };
                            (
                                ManagerState { resolver, ..self.advanced() }.noted(host, seq, time),
                                Act::Published(self.cursor + 1),
                            )
                        },
                        Some(Blocks::Malformed) => (self, Act::Dropped(Reason::Undecodable)),
                        Some(Blocks::Decoded { commit, head }) => {
                            if !self.labeler && !event.consistent(commit, head) {
                                (self, Act::Dropped(Reason::Inconsistent))
                            } else {
                                let resolved = ManagerState {
                                    resolver: self.resolver.resolved(did, row, now),
                                    ..self
                                };
                                match self.resolver.answer(did, row) {
                                    None => (
                                        resolved.noted(host, seq, time),
                                        Act::Queued(queue_key(did, host, seq)),
                                    ),
                                    Some(bound) => {
                                        if bound.0 is Some && bound.0->0 != host {
                                            (
                                                ManagerState {
                                                    resolver: resolved.resolver.expired(
                                                        did,
                                                        time,
                                                        now,
                                                    ),
                                                    ..self
                                                }.noted(host, seq, time),
                                                Act::Queued(queue_key(did, host, seq)),
                                            )
                                        } else if !verified {
                                            (resolved, Act::Dropped(Reason::Signature))
                                        } else {
                                            let (next, act) = resolved.admitted(commit, head@);
                                            if act is Published {
                                                (next.noted(host, seq, time), act)
                                            } else {
                                                (next, act)
                                            }
                                        }
                                    },
                                }
                            }
                        },
                    }
                }
            },
            _ => (self, Act::Dropped(Reason::Unparsed)),
        }
    }
}

impl ManagerState {
    /// What becomes of a record of the queue of `did`, which resolves to `bound`.
    pub open spec fn replayed(self, did: Seq<char>, bound: Bound, record: Queued) -> (
        ManagerState,
        Act,
    ) {
        if key_did(record.key@) != did || key_host(record.key@) is None {
            (self, Act::Dropped(Reason::Key))
        } else {
            match record.frame {
                Parsed::Event(event) => match event.blocks() {
                    Some(Blocks::Decoded { commit, head }) => {
                        if event.envelope().did@ != did || (!self.labeler && !event.consistent(
                            commit,
                            head,
                        )) {
                            (self, Act::Dropped(Reason::Inconsistent))
                        } else if bound.0 is Some && bound.0 != key_host(record.key@) {
                            (self, Act::Dropped(Reason::Host))
                        } else if !record.verified {
                            (self, Act::Dropped(Reason::Signature))
                        } else {
                            self.admitted(commit, head@)
                        }
                    },
                    _ => (self, Act::Dropped(Reason::Undecodable)),
                },
                _ => (self, Act::Dropped(Reason::Unparsed)),
            }
        }
    }

    /// What becomes of the records of the queue of `did`, taken in their order.
    pub open spec fn replayed_all(self, did: Seq<char>, bound: Bound, records: Seq<Queued>) -> (
        ManagerState,
        Seq<Act>,
    )
        decreases records.len(),
    {
        if records.len() == 0 {
            (self, Seq::empty())
        } else {
            let (state, acts) = self.replayed_all(did, bound, records.drop_last());
            let (next, act) = state.replayed(did, bound, records.last());
            (next, acts.push(act))
        }
    }

    /// What a scan of the queue of `did` comes to, where the mirror gives `row` for
    /// `did`: nothing while `did` does not resolve; otherwise what becomes of each
    /// record, in the order in which the records are replayed.
    pub open spec fn scanned(
        self,
        did: Seq<char>,
        row: Option<Bound>,
        records: Seq<Queued>,
        now: u64,
    ) -> (ManagerState, Option<Seq<Act>>) {
        let resolved = ManagerState { resolver: self.resolver.resolved(did, row, now), ..self };
        match self.resolver.answer(did, row) {
            Some(bound) => {
                let (state, acts) = resolved.replayed_all(did, bound, arranged(records));
                (state, Some(acts))
            },
            None => (resolved, None),
        }
    }

    /// Whether a write of the hosts is due at `now`.
    pub open spec fn due(self, now: u64) -> bool {
        self.last + self.interval < now
    }
}

/// Whether one of the first `n` rows of `v` is that of the host `k`.
spec fn named(v: Seq<(String, HostRecord)>, n: int, k: Seq<char>) -> bool {
    exists|i: int| 0 <= i < n && (#[trigger] v[i]).0@ == k
}

pub open spec fn acts_of(r: Option<Vec<Outcome>>) -> Option<Seq<Act>> {
    match r {
        Some(v) => Some(acts(v@)),
        None => None,
    }
}

/// A replay moves the cursor on by one at most.
proof fn lemma_replayed_cursor(s: ManagerState, did: Seq<char>, bound: Bound, record: Queued)
    requires
        s.cursor < u64::MAX,
    ensures
        s.cursor <= s.replayed(did, bound, record).0.cursor <= s.cursor + 1,
{
}

pub struct Manager {
    hosts: Hosts,
    repos: Repos,
    resolver: Resolver,
    labeler: bool,
    cursor: Cursor,
    last: u64,
    interval: u64,
}

impl View for Manager {
    type V = ManagerState;

    closed spec fn view(&self) -> ManagerState {
        ManagerState {
            hosts: host_entries(self.hosts),
            repos: repo_entries(self.repos),
            resolver: self.resolver@,
            labeler: self.labeler,
            cursor: self.cursor.0 as nat,
            last: self.last,
            interval: self.interval,
        }
    }
}

/// Whether a commit follows the state of its repository.
pub fn verify_commit_event(commit: &Commit, head: &Vec<u8>, prev: &RepoState) -> (r: bool)
    ensures
        r == follows(*commit, head@, prev.repo()),
{
    if !le(prev.rev.as_str(), commit.rev.as_str()) {
        return false;
    }
    if same(commit.rev.as_str(), prev.rev.as_str()) {
        bytes_equal(&commit.data, &prev.data) && bytes_equal(head, &prev.head)
    } else {
        true
    }
}

/// The key under which a message of `did`, sent by `host` as its number `seq`, waits
/// in the queue.
pub fn make_queue_key(did: &str, host: &str, seq: u64) -> (r: String)
    ensures
        r@ == queue_key(did@, host@, seq),
{
    let number = decimal_string(seq);
    let mut key = String::from_str(did);
    key.append(">");
    key.append(host);
    key.append(">");
    key.append(number.as_str());
    key
}

impl Manager {
    /// A validator with empty tables, whose log is empty, for a relay of repositories
    /// or of labels, as the resolver is. The first write of the
    /// hosts is due at once: the last one counts as made `interval` before `now`.
    pub fn new(resolver: Resolver, interval: u64, now: u64) -> (r: Manager)
        ensures
            r@ == (ManagerState {
                hosts: no_hosts(),
                repos: no_repos(),
                resolver: resolver@,
                labeler: resolver@.labeler,
                cursor: 0,
                last: if now >= interval {
                    (now - interval) as u64
                } else {
                    now
                },
                interval,
            }),
    {
        let last = if now >= interval {
            now - interval
        } else {
            now
        };
        let labeler = resolver.labeler();
        Manager {
            hosts: Hosts::new(),
            repos: Repos::new(),
            resolver,
            labeler,
            cursor: Cursor::default(),
            last,
            interval,
        }
    }

    /// The last cursor given out.
    pub fn cursor(&self) -> (r: Cursor)
        ensures
            r.0 == self@.cursor,
    {
        self.cursor
    }

    /// What is recorded of `host`.
    pub fn host(&self, host: &str) -> (r: Option<HostRecord>)
        ensures
            r == lookup(self@.hosts, host@),
    {
        self.hosts.get(host)
    }

    /// The number of sequence numbers that `host` has left out before `seq`, if it
    /// has left any out: a message behind a gap is taken all the same.
    pub fn gap(&self, host: &str, seq: u64) -> (r: Option<u64>)
        ensures
            r == self@.missed(host@, seq),
    {
        match self.hosts.get(host) {
            Some(prev) => if prev.seq < seq && prev.seq + 1 < seq {
                Some(seq - prev.seq - 1)
            } else {
                None
            },
            None => None,
        }
    }

    /// Whether what becomes of this message turns on the identity of its DID. Where
    /// it does not, `update` reads neither the mirror's answer nor the verdict on the
    /// signature.
    pub fn needs_identity(&self, host: &str, frame: &Parsed) -> (r: bool)
        ensures
            r == self@.identifies(host@, *frame),
    {
        let event = match frame {
            Parsed::Event(event) => event,
            _ => {
                return false;
            },
        };
        if let Some(prev) = self.hosts.get(host) {
            if prev.seq >= event.seq() {
                return false;
            }
        }
        match event.commit() {
            Ok(Some((commit, head))) => self.labeler || event.validate(commit, head),
            _ => false,
        }
    }

    /// Where the repository of `did` stands.
    pub fn repo(&self, did: &str) -> (r: Option<RepoState>)
        ensures
            crate::tables::repo_of(r) == lookup(self@.repos, did@),
    {
        self.repos.get(did)
    }

    pub fn resolver(&self) -> (r: &Resolver)
        ensures
            r@ == self@.resolver,
    {
        &self.resolver
    }

    /// Gives out the next cursor.
    fn allot(&mut self) -> (r: Cursor)
        requires
            old(self)@.cursor < u64::MAX,
        ensures
            final(self)@ == old(self)@.advanced(),
            r.0 == old(self)@.cursor + 1,
    {
        let _ = self.cursor.next();
        self.cursor
    }

    /// Decides on a commit whose signature holds.
    fn accept(&mut self, commit: &Commit, head: &Vec<u8>) -> (r: Outcome)
        requires
            old(self)@.cursor < u64::MAX,
        ensures
            (final(self)@, r.act()) == old(self)@.admitted(*commit, head@),
    {
        if self.labeler {
            return Outcome::Published(self.allot());
        }
        if let Some(prev) = self.repos.get(commit.did.as_str()) {
            if !verify_commit_event(commit, head, &prev) {
                return Outcome::Dropped(Reason::Revision);
            }
        }
        let cursor = self.allot();
        self.repos.insert(
            commit.did.clone(),
            RepoState { rev: commit.rev.clone(), data: commit.data.clone(), head: head.clone() },
        );
        Outcome::Published(cursor)
    }

    /// Takes in one message from `host`. `frame` is what parsing it gave; `mirror` is
    /// what the ledger's mirror answered for the event's DID, and `verified` whether
    /// the commit is signed by the key that the DID resolves to: both are read only
    /// where the decision turns on them.
    pub fn update(
        &mut self,
        host: &str,
        frame: &Parsed,
        mirror: &MirrorAnswer,
        verified: bool,
        now: u64,
    ) -> (r: Result<Outcome, ManagerError>)
        requires
            old(self)@.cursor < u64::MAX,
        ensures
            match r {
                Ok(outcome) => {
                    &&& !old(self)@.fails(host@, *frame, *mirror)
                    &&& (final(self)@, outcome.act()) == old(self)@.updated(
                        host@,
                        *frame,
                        mirror.bound(),
                        verified,
                        now,
                    )
                },
                Err(e) => {
                    &&& old(self)@.fails(host@, *frame, *mirror)
                    &&& final(self)@ == old(self)@
                    &&& mirror matches MirrorAnswer::Failed(m)
                    &&& e matches ManagerError::Resolver(ResolverError::Sqlite(t))
                    &&& t@ == m@
                },
            },
    {
        let event = match frame {
            Parsed::Event(event) => event,
            _ => {
                return Ok(Outcome::Dropped(Reason::Unparsed));
            },
        };
        // check the host's sequence and keep its time from going back
        let seq = event.seq();
        let mut time = event.time();
        let did = event.did();
        if let Some(prev) = self.hosts.get(host) {
            time = time.max(prev.time);
            if prev.seq >= seq {
                return Ok(Outcome::Dropped(Reason::Stale));
            }
        }
        // the commit of a commit-bearing event; any other event goes to the log
        let (commit, head) = match event.commit() {
            Ok(Some((commit, head))) => {
                if !self.labeler && !event.validate(commit, head) {
                    return Ok(Outcome::Dropped(Reason::Inconsistent));
                }
                (commit, head)
            },
            Ok(None) => {
                if let SubscribeReposEvent::Identity(_) = event {
                    self.resolver.expire(did, event.time(), now);
                }
                let cursor = self.allot();
                self.hosts.insert(host.to_owned(), HostRecord { seq, time });
                return Ok(Outcome::Published(cursor));
            },
            Err(_) => {
                return Ok(Outcome::Dropped(Reason::Undecodable));
            },
        };
        // resolve the identity and check the host
        let binding = match self.resolver.resolve(did, mirror, now) {
            Ok(Some(binding)) => binding,
            Ok(None) => {
                let key = make_queue_key(did, host, seq);
                self.hosts.insert(host.to_owned(), HostRecord { seq, time });
                return Ok(Outcome::Queued(key));
            },
            Err(e) => {
                return Err(ManagerError::Resolver(e));
            },
        };
        if let Some(pds) = &binding.endpoint {
            if !same(host, pds.as_str()) {
                // the account may have moved: forget the identity and let the message wait
                self.resolver.expire(did, time, now);
                let key = make_queue_key(did, host, seq);
                self.hosts.insert(host.to_owned(), HostRecord { seq, time });
                return Ok(Outcome::Queued(key));
            }
        }
        if !verified {
            return Ok(Outcome::Dropped(Reason::Signature));
        }
        let outcome = self.accept(commit, head);
        if let Outcome::Published(_) = outcome {
            self.hosts.insert(host.to_owned(), HostRecord { seq, time });
        }
        Ok(outcome)
    }
    /// Puts in what was kept of the hosts and the repositories, and takes up the log
    /// where it ends: `last_key` is the cursor of its last record, if it has one.
    pub fn run(
        &mut self,
        hosts: Vec<(String, u64)>,
        repos: Vec<(String, RepoState)>,
        last_key: Option<Cursor>,
    )
        ensures
            final(self)@ == (ManagerState {
                hosts: with_hosts(old(self)@.hosts, hosts@),
                repos: with_repos(old(self)@.repos, repos@),
                cursor: match last_key {
                    Some(c) => c.0 as nat,
                    None => 0,
                },
                ..old(self)@
            }),
    {
        let mut i: usize = 0;
        assert(hosts@.take(0) =~= Seq::<(String, u64)>::empty());
        while i < hosts.len()
            invariant
                i <= hosts.len(),
                self@ == (ManagerState {
                    hosts: with_hosts(old(self)@.hosts, hosts@.take(i as int)),
                    ..old(self)@
                }),
            decreases hosts.len() - i,
        {
            assert(hosts@.take(i + 1).drop_last() =~= hosts@.take(i as int));
            self.hosts.insert(
                hosts[i].0.clone(),
                HostRecord { seq: hosts[i].1, time: Timestamp::epoch() },
            );
            i += 1;
        }
        assert(hosts@.take(hosts@.len() as int) =~= hosts@);
        let mut j: usize = 0;
        assert(repos@.take(0) =~= Seq::<(String, RepoState)>::empty());
        while j < repos.len()
            invariant
                j <= repos.len(),
                self@ == (ManagerState {
                    hosts: with_hosts(old(self)@.hosts, hosts@),
                    repos: with_repos(old(self)@.repos, repos@.take(j as int)),
                    ..old(self)@
                }),
            decreases repos.len() - j,
        {
            assert(repos@.take(j + 1).drop_last() =~= repos@.take(j as int));
            let state = &repos[j].1;
            self.repos.insert(
                repos[j].0.clone(),
                RepoState {
                    rev: state.rev.clone(),
                    data: state.data.clone(),
                    head: state.head.clone(),
                },
            );
            j += 1;
        }
        assert(repos@.take(repos@.len() as int) =~= repos@);
        self.cursor = match last_key {
            Some(c) => c,
            None => Cursor::default(),
        };
    }

    /// Says whether a write of the hosts is due at `now`, and if so counts it as made.
    pub fn persist_due(&mut self, now: u64) -> (r: bool)
        ensures
            r == old(self)@.due(now),
            final(self)@ == (ManagerState {
                last: if r {
                    now
                } else {
                    old(self)@.last
                },
                ..old(self)@
            }),
    {
        let due = match self.last.checked_add(self.interval) {
            Some(at) => at < now,
            None => false,
        };
        if due {
            self.last = now;
        }
        due
    }

    /// The hosts to write out: those that have sent something since the validator
    /// started, each once.
    pub fn persist(&self) -> (r: Vec<(String, HostRecord)>)
        ensures
            lists_hosts(r@, heard(self@.hosts)),
    {
        let all = self.hosts.records();
        let ghost m = self@.hosts;
        let mut out: Vec<(String, HostRecord)> = Vec::new();
        let mut i: usize = 0;
        while i < all.len()
            invariant
                i <= all.len(),
                lists_hosts(all@, m),
                forall|j: int|
                    0 <= j < out@.len() ==> lookup(heard(m), (#[trigger] out@[j]).0@) == Some(
                        out@[j].1,
                    ),
                forall|j: int| 0 <= j < out@.len() ==> named(all@, i as int, (#[trigger] out@[j]).0@),
                forall|k: int|
                    0 <= k < i && !(#[trigger] all@[k]).1.time.is_epoch() ==> named(
                        out@,
                        out@.len() as int,
                        all@[k].0@,
                    ),
                forall|a: int, b: int|
                    0 <= a < b < out@.len() ==> (#[trigger] out@[a]).0@ != (#[trigger] out@[b]).0@,
            decreases all.len() - i,
        {
            let record = all[i].1;
            let ghost before = out@;
            if !(record.time.secs == 0 && record.time.nanos == 0) {
                out.push((all[i].0.clone(), record));
                proof {
                    let n = before.len() as int;
                    assert(out@[n].0@ == all@[i as int].0@);
                    assert(lookup(m, all@[i as int].0@) == Some(all@[i as int].1));
                    assert forall|a: int| 0 <= a < n implies (#[trigger] out@[a]).0@ != out@[n].0@ by {
                        assert(out@[a] == before[a]);
                        let k = choose|k: int| 0 <= k < i && (#[trigger] all@[k]).0@ == before[a].0@;
                        assert(all@[k].0@ != all@[i as int].0@);
                    }
                    assert forall|k: int|
                        0 <= k < i + 1 && !(#[trigger] all@[k]).1.time.is_epoch() implies named(
                        out@,
                        out@.len() as int,
                        all@[k].0@,
                    ) by {
                        if k < i {
                            let j = choose|j: int|
                                0 <= j < n && (#[trigger] before[j]).0@ == all@[k].0@;
                            assert(out@[j] == before[j]);
                        } else {
                            assert(out@[n].0@ == all@[k].0@);
                        }
                    }
                }
            }
            proof {
                assert forall|j: int| 0 <= j < out@.len() implies named(
                    all@,
                    i + 1,
                    (#[trigger] out@[j]).0@,
                ) by {
                    if j < before.len() {
                        assert(out@[j] == before[j]);
                        let k = choose|k: int|
                            0 <= k < i && (#[trigger] all@[k]).0@ == before[j].0@;
                        assert(all@[k].0@ == out@[j].0@);
                    } else {
                        assert(all@[i as int].0@ == out@[j].0@);
                    }
                }
            }
            i += 1;
        }
        proof {
            assert forall|k: Seq<char>| heard(m).contains_key(k) implies exists|j: int|
                0 <= j < out@.len() && (#[trigger] out@[j]).0@ == k by {
                let a = choose|a: int| 0 <= a < all@.len() && (#[trigger] all@[a]).0@ == k;
                assert(lookup(m, all@[a].0@) == Some(all@[a].1));
                assert(named(out@, out@.len() as int, all@[a].0@));
            }
        }
        out
    }

    /// What is to be kept when the validator stops: the hosts that have sent
    /// something, and every repository.
    pub fn snapshot(&self) -> (r: (Vec<(String, HostRecord)>, Vec<(String, RepoState)>))
        ensures
            lists_hosts(r.0@, heard(self@.hosts)),
            lists_repos(r.1@, self@.repos),
    {
        let hosts = self.persist();
        let repos = self.repos.records();
        (hosts, repos)
    }

    /// Takes in what a fetch of the resolver brought back, or that none has
    /// completed, and returns the DIDs whose queues are to be scanned.
    pub fn poll(&mut self, completed: Option<Completed>, now: u64) -> (r: Result<
        Vec<String>,
        ManagerError,
    >)
        ensures
            final(self)@ == (ManagerState { resolver: final(self)@.resolver, ..old(self)@ }),
            match r {
                Ok(dids) => old(self)@.resolver.polled(
                    completed,
                    now,
                    final(self)@.resolver,
                    Ok(dids),
                ),
                Err(ManagerError::Resolver(e)) => old(self)@.resolver.polled(
                    completed,
                    now,
                    final(self)@.resolver,
                    Err(e),
                ),
                Err(_) => false,
            },
    {
        match self.resolver.poll(completed, now) {
            Ok(dids) => Ok(dids),
            Err(e) => Err(ManagerError::Resolver(e)),
        }
    }

    /// Hands over the fetches that the resolver has issued since the last call.
    pub fn take_requests(&mut self) -> (r: Vec<Request>)
        ensures
            fetches(r@) == old(self)@.resolver.requests,
            final(self)@ == (ManagerState {
                resolver: ResolverState { requests: Seq::empty(), ..old(self)@.resolver },
                ..old(self)@
            }),
    {
        self.resolver.take_requests()
    }

    /// The binding that `did` resolves to at this moment, where the mirror answers
    /// `mirror`: its key is the one that a commit of `did` has to be signed by.
    pub fn peek(&self, did: &str, mirror: &MirrorAnswer) -> (r: Option<Binding>)
        ensures
            bound_of(r) == self@.resolver.answer(did@, mirror.bound()),
            r matches Some(b) ==> sized(b.bound()),
    {
        self.resolver.peek(did, mirror)
    }

    /// Decides on one record of the queue of `did`, which resolves to `binding`.
    fn replay(&mut self, did: &str, binding: &Binding, record: &Queued) -> (r: Outcome)
        requires
            old(self)@.cursor < u64::MAX,
        ensures
            (final(self)@, r.act()) == old(self)@.replayed(did@, binding.bound(), *record),
    {
        if !same(first_piece(record.key.as_str(), '>'), did) {
            return Outcome::Dropped(Reason::Key);
        }
        let host = match split_once(record.key.as_str(), '>') {
            Some((_, rest)) => first_piece(rest, '>'),
            None => {
                return Outcome::Dropped(Reason::Key);
            },
        };
        let event = match &record.frame {
            Parsed::Event(event) => event,
            _ => {
                return Outcome::Dropped(Reason::Unparsed);
            },
        };
        let (commit, head) = match event.commit() {
            Ok(Some((commit, head))) => (commit, head),
            _ => {
                return Outcome::Dropped(Reason::Undecodable);
            },
        };
        if !same(event.did(), did) || (!self.labeler && !event.validate(commit, head)) {
            return Outcome::Dropped(Reason::Inconsistent);
        }
        if let Some(pds) = &binding.endpoint {
            if !same(host, pds.as_str()) {
                return Outcome::Dropped(Reason::Host);
            }
        }
        if !record.verified {
            return Outcome::Dropped(Reason::Signature);
        }
        self.accept(commit, head)
    }

    /// Scans the queue of `did`, once `did` may have become resolvable. `records` are
    /// the records that wait under the prefix of `did`, in whatever order the queue
    /// hands them out, and `mirror` is what the ledger's mirror answered for `did`.
    /// While `did` does not resolve, nothing is returned and every record stays.
    /// Otherwise every record leaves the queue; the records are replayed by rising
    /// upstream sequence number, in the order that `replay_order_of` gives, and what
    /// becomes of each is returned in that order.
    pub fn scan_did(&mut self, did: &str, mirror: &MirrorAnswer, records: &Vec<Queued>, now: u64)
        -> (r: Result<Option<Vec<Outcome>>, ManagerError>)
        requires
            old(self)@.cursor + records@.len() <= u64::MAX,
        ensures
            match r {
                Ok(outcomes) => {
                    &&& !(old(self)@.resolver.consults(did@) && mirror is Failed)
                    &&& (final(self)@, acts_of(outcomes)) == old(self)@.scanned(
                        did@,
                        mirror.bound(),
                        records@,
                        now,
                    )
                    &&& outcomes matches Some(v) ==> v@.len() == records@.len()
                },
                Err(e) => {
                    &&& old(self)@.resolver.consults(did@)
                    &&& final(self)@ == old(self)@
                    &&& mirror matches MirrorAnswer::Failed(m)
                    &&& e matches ManagerError::Resolver(ResolverError::Sqlite(t))
                    &&& t@ == m@
                },
            },
    {
        let binding = match self.resolver.resolve(did, mirror, now) {
            Ok(Some(binding)) => binding,
            Ok(None) => {
                return Ok(None);
            },
            Err(e) => {
                return Err(ManagerError::Resolver(e));
            },
        };
        let order = replay_order_of(records);
        let ghost start = self@;
        let ghost bound = binding.bound();
        let ghost queue = arranged(records@);
        let mut outcomes: Vec<Outcome> = Vec::new();
        let mut i: usize = 0;
        assert(queue.take(0) =~= Seq::<Queued>::empty());
        assert(acts(outcomes@) =~= Seq::<Act>::empty());
        while i < order.len()
            invariant
                i <= order.len(),
                order@ == replay_order(records@, records@.len()),
                order@.len() == records@.len(),
                forall|k: int| 0 <= k < order@.len() ==> (#[trigger] order@[k]) < records@.len(),
                queue == arranged(records@),
                outcomes@.len() == i,
                bound == binding.bound(),
                start.cursor + records@.len() <= u64::MAX,
                self@.cursor <= start.cursor + i,
                (self@, acts(outcomes@)) == start.replayed_all(did@, bound, queue.take(i as int)),
            decreases order.len() - i,
        {
            assert(queue.take(i + 1).drop_last() =~= queue.take(i as int));
            assert(queue.take(i + 1).last() == records@[order@[i as int] as int]);
            proof {
                lemma_replayed_cursor(self@, did@, bound, records@[order@[i as int] as int]);
            }
            let ghost before = outcomes@;
            let outcome = self.replay(did, &binding, &records[order[i]]);
            outcomes.push(outcome);
            assert(acts(outcomes@) =~= acts(before).push(outcome.act()));
            i += 1;
        }
        assert(queue.take(queue.len() as int) =~= queue);
        Ok(Some(outcomes))
    }
}

/// The upstream sequence number that a record of the queue bears.
fn number(record: &Queued) -> (r: u64)
    ensures
        r == number_of(*record),
{
    match &record.frame {
        Parsed::Event(event) => event.seq(),
        _ => 0,
    }
}

/// The order in which the records of a queue are replayed, as places in `records`:
/// by rising upstream sequence number, and as handed in where the numbers agree.
pub fn replay_order_of(records: &Vec<Queued>) -> (order: Vec<usize>)
    ensures
        order@ == replay_order(records@, records@.len()),
        rises(records@, order@, records@.len()),
{
    let mut order: Vec<usize> = Vec::new();
    let mut i: usize = 0;
    while i < records.len()
        invariant
            i <= records.len(),
            order@ == replay_order(records@, i as nat),
            rises(records@, order@, i as nat),
        decreases records.len() - i,
    {
        let own = number(&records[i]);
        let mut pos = order.len();
        assert(order@.take(pos as int) =~= order@);
        while pos > 0 && number(&records[order[pos - 1]]) > own
            invariant
                pos <= order.len(),
                i < records.len(),
                own == number_of(records@[i as int]),
                rises(records@, order@, i as nat),
                place(records@, order@, i as int) == place(
                    records@,
                    order@.take(pos as int),
                    i as int,
                ),
            decreases pos,
        {
            assert(order@.take(pos as int).drop_last() =~= order@.take(pos - 1));
            assert(order@.take(pos as int).last() == order@[pos - 1]);
            pos -= 1;
        }
        proof {
            if pos > 0 {
                assert(order@.take(pos as int).last() == order@[pos - 1]);
            }
            law_replay_order_rises(records@, (i + 1) as nat);
        }
        order.insert(pos, i);
        i += 1;
    }
    order
}

/// The DID that a queue key names.
pub fn queue_did(key: &str) -> (r: &str)
    ensures
        r@ == key_did(key@),
{
    first_piece(key, '>')
}

/// The start of the keys under which the messages of `did` wait in the queue.
pub fn make_queue_prefix(did: &str) -> (r: String)
    ensures
        r@ == queue_prefix(did@),
{
    String::from_str(did).concat(">")
}

} // verus!
