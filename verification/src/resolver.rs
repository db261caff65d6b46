//! The identity resolver: which host and which key a DID is bound to.
//!
//! The resolver answers from its cache, then from what the ledger's mirror holds, and
//! otherwise issues a fetch. It does no I/O itself: the mirror's answer comes in as a
//! value, the fetches that it issues wait in `requests` for the driver to send them,
//! and what a fetch brought back comes in through `poll`.

use vstd::prelude::*;
use vstd::string::*;

use crate::cache::{
    bound_of, found, promoted, sized, stored, without, Binding, Bound, Cache, Slot,
};
use crate::identity::{chars_of_opt, key_endpoint, parse_did_doc, parse_key_endpoint, DidDocument};
use crate::inflight::{inflight_dids, is_plc, is_web, lists, Inflight, PLC_PREFIX, WEB_PREFIX};
use crate::text::{same, strip_prefix};
use crate::types::Timestamp;

verus! {

/// The public ledger's directory.
pub const PLC_URL: &'static str = "https://plc.directory";

/// The directory's export of operations, a page at a time.
pub const PLC_EXPORT: &'static str = "export?count=1000&after";

/// Where a web host keeps its DID document.
pub const DOC_PATH: &'static str = ".well-known/did.json";

/// The number of lines of a full page of the export.
pub const PAGE: usize = 1000;

/// What a fetch asks for.
#[derive(Clone, Debug)]
pub enum Query {
    /// The document of this DID.
    Did(String),
    /// The ledger's operations after this point.
    Export(String),
}

/// A fetch for the driver to send.
#[derive(Clone, Debug)]
pub struct Request {
    pub url: String,
    pub query: Query,
}

/// What the ledger's mirror answered when asked for a DID.
#[derive(Clone, Debug)]
pub enum MirrorAnswer {
    /// The endpoint and the key of its latest row, as written there.
    Row { endpoint: Option<String>, key: Option<String> },
    /// It holds no row for the DID.
    NoRows,
    /// The store failed, with this message.
    Failed(String),
}

/// One operation of the ledger's export, as far as the resolver reads it.
#[derive(Clone, Debug)]
pub struct PlcOperation {
    pub did: String,
    pub created_at: String,
}

/// What a fetch brought back.
#[derive(Clone, Debug)]
pub enum Completed {
    /// The fetch failed.
    Failed(Query),
    /// The answer to a query for the document of `did`; no document where the body
    /// was none.
    Document { did: String, doc: Option<DidDocument> },
    /// The page of the export that was asked for: one entry for each line, none for
    /// a line that is no operation; and the store's message, if it failed to keep
    /// the page.
    Export { rows: Vec<Option<PlcOperation>>, failure: Option<String> },
}

#[derive(Clone, Debug)]
pub enum ResolverError {
    Sqlite(String),
    SizeError,
    Http(String),
}

impl ResolverError {
    /// The error in words.
    pub fn message(&self) -> (r: String)
        ensures
            r@ == match *self {
                ResolverError::Sqlite(m) => "sqlite error: "@ + m@,
                ResolverError::SizeError => "size error"@,
                ResolverError::Http(m) => "http error: "@ + m@,
            },
    {
        match self {
            ResolverError::Sqlite(m) => String::from_str("sqlite error: ").concat(m.as_str()),
            ResolverError::SizeError => String::from_str("size error"),
            ResolverError::Http(m) => String::from_str("http error: ").concat(m.as_str()),
        }
    }
}

/// What a query asks for, as plain values.
pub enum Ask {
    Did(Seq<char>),
    Export(Seq<char>),
}

/// A fetch as plain values.
pub struct Fetch {
    pub url: Seq<char>,
    pub ask: Ask,
}

impl Query {
    pub open spec fn ask(self) -> Ask {
        match self {
            Query::Did(d) => Ask::Did(d@),
            Query::Export(a) => Ask::Export(a@),
        }
    }
}

impl Request {
    pub open spec fn fetch(self) -> Fetch {
        Fetch { url: self.url@, ask: self.query.ask() }
    }
}

pub open spec fn fetches(v: Seq<Request>) -> Seq<Fetch> {
    v.map_values(|r: Request| r.fetch())
}

pub open spec fn names(v: Seq<String>) -> Seq<Seq<char>> {
    v.map_values(|s: String| s@)
}

pub open spec fn chars_of_string(s: Option<String>) -> Option<Seq<char>> {
    match s {
        Some(s) => Some(s@),
        None => None,
    }
}

/// Where the document of a web DID is fetched from.
pub open spec fn document_url(host: Seq<char>) -> Seq<char> {
    "https://"@ + host + "/"@ + DOC_PATH@
}

/// Where the document of a ledger DID is fetched from.
pub open spec fn ledger_url(did: Seq<char>) -> Seq<char> {
    PLC_URL@ + "/"@ + did
}

/// Where the ledger's operations after `after` are fetched from.
pub open spec fn export_url(after: Seq<char>) -> Seq<char> {
    PLC_URL@ + "/"@ + PLC_EXPORT@ + "="@ + after
}

/// What a percent-encoded string stands for, if that is valid UTF-8.
pub uninterp spec fn percent_decoded(s: Seq<char>) -> Option<Seq<char>>;

/// `urlencoding::decode`: `s` with its percent escapes replaced by the bytes that
/// they name, or nothing where the result is not valid UTF-8.
#[verifier::external_body]
fn percent_decode(s: &str) -> (r: Option<String>)
    ensures
        r is Some == percent_decoded(s@) is Some,
        r matches Some(t) ==> percent_decoded(s@) == Some(t@),
{
    match urlencoding::decode(s) {
        Ok(t) => Some(t.into_owned()),
        Err(_) => None,
    }
}

/// The instant that an RFC 3339 date-and-time names: seconds since the Unix epoch
/// and nanoseconds past them.
pub uninterp spec fn rfc3339_instant(s: Seq<char>) -> Option<(i64, u32)>;

/// `chrono::DateTime::parse_from_rfc3339`, with `timestamp` and
/// `timestamp_subsec_nanos` of what it returns: the instant that `s` names, or
/// nothing where `s` is no RFC 3339 date-and-time.
#[verifier::external_body]
fn parse_rfc3339(s: &str) -> (r: Option<Timestamp>)
    ensures
        r is Some == rfc3339_instant(s@) is Some,
        r matches Some(t) ==> rfc3339_instant(s@) == Some((t.secs, t.nanos)),
{
    match chrono::DateTime::parse_from_rfc3339(s) {
        Ok(t) => Some(Timestamp { secs: t.timestamp(), nanos: t.timestamp_subsec_nanos() }),
        Err(_) => None,
    }
}

impl MirrorAnswer {
    /// The binding that the mirror's row gives, if it gives one.
    pub open spec fn bound(self) -> Option<Bound> {
        match self {
            MirrorAnswer::Row { endpoint, key } => key_endpoint(
                chars_of_string(endpoint),
                chars_of_string(key),
            ),
            _ => None,
        }
    }
}

/// The resolver's state as plain values.
pub struct ResolverState {
    /// The cache's entries, from the most recently used to the least.
    pub cache: Seq<Slot>,
    /// The number of entries that the cache holds at most.
    pub limit: nat,
    /// The DIDs with a fetch outstanding.
    pub inflight: Set<Seq<char>>,
    /// Up to where the ledger has been imported: the time of the latest operation
    /// that the mirror holds.
    pub after: Seq<char>,
    /// Whether a page of the export is on its way.
    pub pending: bool,
    /// When a page of the export was last asked for.
    pub last: u64,
    /// Whether the resolver imports the ledger itself.
    pub export: bool,
    /// Whether the relay is one of labels: then a DID is bound to its labeler.
    pub labeler: bool,
    /// The time to let pass between two imports.
    pub interval: u64,
    /// The fetches issued and not yet handed to the driver.
    pub requests: Seq<Fetch>,
}

/// What a walk over the lines of an export page has gathered.
pub struct Sweep {
    pub after: Seq<char>,
    pub inflight: Set<Seq<char>>,
    pub dids: Seq<Seq<char>>,
}

/// The walk over the lines of an export page: each operation moves `after` to its
/// time, and its DID, if a fetch for it is outstanding, leaves the set and is noted.
pub open spec fn swept(rows: Seq<Option<PlcOperation>>, start: Sweep) -> Sweep
    decreases rows.len(),
{
    if rows.len() == 0 {
        start
    } else {
        let s = swept(rows.drop_last(), start);
        match rows.last() {
            Some(op) => Sweep {
                after: op.created_at@,
                inflight: s.inflight.remove(op.did@),
                dids: if s.inflight.contains(op.did@) {
                    s.dids.push(op.did@)
                } else {
                    s.dids
                },
            },
            None => s,
        }
    }
}

impl ResolverState {
    /// The state with one more fetch waiting.
    pub open spec fn pushed(self, fetch: Fetch) -> ResolverState {
        ResolverState { requests: self.requests.push(fetch), ..self }
    }

    /// The state after a fetch was issued: for the document of `did` at the web host
    /// `web`, or at the ledger; without a DID, for the next page of the export, unless
    /// one is on its way.
    pub open spec fn issued(self, did: Option<Seq<char>>, web: Option<Seq<char>>, now: u64)
        -> ResolverState {
        match did {
            Some(d) => match web {
                Some(w) => self.pushed(Fetch { url: document_url(w), ask: Ask::Did(d) }),
                None => self.pushed(Fetch { url: ledger_url(d), ask: Ask::Did(d) }),
            },
            None => if self.pending {
                self
            } else {
                ResolverState { pending: true, last: now, ..self }.pushed(
                    Fetch { url: export_url(self.after), ask: Ask::Export(self.after) },
                )
            },
        }
    }

    /// The state after `did` was asked for. A ledger DID is left to the next import
    /// where the resolver imports, and fetched from the ledger where it does not. A
    /// web DID is fetched from its host. A web DID whose host's name does not decode,
    /// and a DID of another method, is not fetched and is no longer awaited.
    pub open spec fn requested(self, did: Seq<char>, now: u64) -> ResolverState {
        let marked = ResolverState { inflight: self.inflight.insert(did), ..self };
        if is_plc(did) {
            if self.export {
                marked.issued(None, None, now)
            } else {
                marked.issued(Some(did), None, now)
            }
        } else if is_web(did) {
            match percent_decoded(did.skip(WEB_PREFIX@.len() as int)) {
                Some(host) => marked.issued(Some(did), Some(host), now),
                None => ResolverState { inflight: self.inflight.remove(did), ..self },
            }
        } else {
            ResolverState { inflight: self.inflight.remove(did), ..self }
        }
    }

    /// Whether an event of time `time` makes what is known of a DID out of date:
    /// it does where it is later than the point up to which the ledger was imported,
    /// whether or not a page is on its way, and where that point cannot be read.
    pub open spec fn outdated(self, time: Timestamp) -> bool {
        match rfc3339_instant(self.after) {
            Some((secs, nanos)) => Timestamp { secs, nanos }.before(time),
            None => true,
        }
    }

    /// The state after `did` was expired at `time`.
    pub open spec fn expired(self, did: Seq<char>, time: Timestamp, now: u64) -> ResolverState {
        if self.outdated(time) {
            ResolverState { cache: without(self.cache, did), ..self }.requested(did, now)
        } else {
            self
        }
    }

    /// Whether resolving `did` turns to the mirror.
    pub open spec fn consults(self, did: Seq<char>) -> bool {
        !self.inflight.contains(did) && found(self.cache, did) is None
    }

    /// What `did` resolves to, where the mirror gives `row`.
    pub open spec fn answer(self, did: Seq<char>, row: Option<Bound>) -> Option<Bound> {
        if self.inflight.contains(did) {
            None
        } else if found(self.cache, did) is Some {
            found(self.cache, did)
        } else {
            row
        }
    }

    /// The state after what the mirror gave for `did` was taken in.
    pub open spec fn queried(self, did: Seq<char>, row: Option<Bound>) -> ResolverState {
        match row {
            Some(b) => ResolverState { cache: stored(self.cache, self.limit, did, b), ..self },
            None => self,
        }
    }

    /// The state after `did` was resolved, where the mirror gives `row`.
    pub open spec fn resolved(self, did: Seq<char>, row: Option<Bound>, now: u64)
        -> ResolverState {
        if self.inflight.contains(did) {
            self
        } else if found(self.cache, did) is Some {
            ResolverState { cache: promoted(self.cache, did), ..self }
        } else if row is Some {
            self.queried(did, row)
        } else {
            self.requested(did, now)
        }
    }

    /// Whether an import is due at `now`.
    pub open spec fn due(self, now: u64) -> bool {
        self.export && now - self.last > self.interval
    }

    /// The state after the answer to a query for the document of `did` was taken in,
    /// and whether `did` became resolvable by it: it did where the document is about
    /// `did` and gives a binding.
    pub open spec fn documented(self, did: Seq<char>, doc: Option<DidDocument>) -> (
        ResolverState,
        bool,
    ) {
        match doc {
            Some(d) => match d.bound(self.labeler) {
                Some(b) => if d.id@ == did {
                    (
                        ResolverState {
                            inflight: self.inflight.remove(did),
                            cache: stored(self.cache, self.limit, did, b),
                            ..self
                        },
                        true,
                    )
                } else {
                    (self, false)
                },
                None => (self, false),
            },
            None => (self, false),
        }
    }

    /// The state after a stored page of the export was taken in. After a full page
    /// the next one is asked for. After a short page the ledger holds no more: every
    /// ledger DID still awaited is given up.
    pub open spec fn imported(self, rows: Seq<Option<PlcOperation>>, now: u64) -> ResolverState {
        let s = swept(rows, Sweep { after: self.after, inflight: self.inflight, dids: Seq::empty() });
        if rows.len() == PAGE {
            ResolverState { after: s.after, inflight: s.inflight, pending: false, ..self }.issued(
                None,
                None,
                now,
            )
        } else {
            ResolverState {
                after: s.after,
                inflight: s.inflight.filter(|d: Seq<char>| !is_plc(d)),
                pending: false,
                ..self
            }
        }
    }

    /// Whether `dids` are the DIDs that a stored page of the export makes resolvable:
    /// those that the page resolves come first, in the page's order; after a short
    /// page the ledger DIDs that are given up follow, in no stated order.
    pub open spec fn released(self, rows: Seq<Option<PlcOperation>>, dids: Seq<String>) -> bool {
        let s = swept(rows, Sweep { after: self.after, inflight: self.inflight, dids: Seq::empty() });
        if rows.len() == PAGE {
            names(dids) == s.dids
        } else {
            &&& s.dids.len() <= dids.len()
            &&& names(dids.take(s.dids.len() as int)) == s.dids
            &&& lists(dids.skip(s.dids.len() as int), s.inflight.filter(|d: Seq<char>| is_plc(d)))
        }
    }

    /// The state after what a fetch brought back was taken in. A fetch of the export
    /// that failed, and a page that could not be kept, leave the import where it
    /// stood, with no page on its way.
    pub open spec fn handled(self, completed: Option<Completed>, now: u64) -> ResolverState {
        match completed {
            None => self,
            Some(Completed::Failed(query)) => match query {
                Query::Export(_) => ResolverState { pending: false, ..self },
                Query::Did(_) => self,
            },
            Some(Completed::Document { did, doc }) => self.documented(did@, doc).0,
            Some(Completed::Export { rows, failure }) => match failure {
                Some(_) => ResolverState { pending: false, ..self },
                None => self.imported(rows@, now),
            },
        }
    }

    /// Whether `dids` are the DIDs that have become resolvable by what a fetch brought
    /// back.
    pub open spec fn resolvable(self, completed: Option<Completed>, dids: Seq<String>) -> bool {
        match completed {
            Some(Completed::Document { did, doc }) => names(dids) == if self.documented(
                did@,
                doc,
            ).1 {
                seq![did@]
            } else {
                Seq::<Seq<char>>::empty()
            },
            Some(Completed::Export { rows, failure: None }) => self.released(rows@, dids),
            _ => dids.len() == 0,
        }
    }

    /// The state after the import was looked after at `now`: where it is due, the
    /// next page is asked for, unless one is on its way.
    pub open spec fn refreshed(self, now: u64) -> ResolverState {
        if self.due(now) {
            self.issued(None, None, now)
        } else {
            self
        }
    }

    /// Whether `post` and `r` are what `poll` makes of `self`: what the fetch brought
    /// back is taken in, and then the import is looked after. A page that could not
    /// be kept is an error.
    pub open spec fn polled(
        self,
        completed: Option<Completed>,
        now: u64,
        post: ResolverState,
        r: Result<Vec<String>, ResolverError>,
    ) -> bool {
        match completed {
            Some(Completed::Export { failure: Some(m), .. }) => {
                &&& post == self.handled(completed, now)
                &&& r matches Err(ResolverError::Sqlite(e)) && e@ == m@
            },
            _ => {
                &&& post == self.handled(completed, now).refreshed(now)
                &&& r matches Ok(dids) && self.resolvable(completed, dids@)
            },
        }
    }
}

pub struct Resolver {
    cache: Cache,
    inflight: Inflight,
    after: String,
    pending: bool,
    last: u64,
    export: bool,
    labeler: bool,
    interval: u64,
    requests: Vec<Request>,
}

impl View for Resolver {
    type V = ResolverState;

    closed spec fn view(&self) -> ResolverState {
        ResolverState {
            cache: self.cache.entries(),
            limit: self.cache.limit(),
            inflight: inflight_dids(self.inflight),
            after: self.after@,
            pending: self.pending,
            last: self.last,
            export: self.export,
            labeler: self.labeler,
            interval: self.interval,
            requests: fetches(self.requests@),
        }
    }
}

proof fn lemma_found_front(k: Seq<char>, v: Bound, rest: Seq<Slot>)
    ensures
        found(seq![(k, v)] + rest, k) == Some(v),
{
}

impl Resolver {
    /// A resolver with an empty cache of `capacity` entries and nothing awaited, for
    /// a relay of repositories or, with `labeler`, one of labels.
    /// `after` is the time of the latest operation that the mirror holds. The first
    /// import is due at once: the last one counts as made `interval` before `now`.
    pub fn new(
        capacity: usize,
        export: bool,
        labeler: bool,
        after: String,
        interval: u64,
        now: u64,
    ) -> (r: Resolver)
        requires
            capacity > 0,
        ensures
            r@ == (ResolverState {
                cache: Seq::empty(),
                limit: capacity as nat,
                inflight: Set::empty(),
                after: after@,
                pending: false,
                last: if now >= interval {
                    (now - interval) as u64
                } else {
                    now
                },
                export,
                labeler,
                interval,
                requests: Seq::empty(),
            }),
    {
        let last = if now >= interval {
            now - interval
        } else {
            now
        };
        let r = Resolver {
            cache: Cache::new(capacity),
            inflight: Inflight::new(),
            after,
            pending: false,
            last,
            export,
            labeler,
            interval,
            requests: Vec::new(),
        };
        assert(fetches(r.requests@) =~= Seq::empty());
        r
    }

    /// Whether the relay is one of labels.
    pub fn labeler(&self) -> (r: bool)
        ensures
            r == self@.labeler,
    {
        self.labeler
    }

    /// Whether a fetch for `did` is outstanding.
    pub fn is_inflight(&self, did: &str) -> (r: bool)
        ensures
            r == self@.inflight.contains(did@),
    {
        self.inflight.contains(did)
    }

    /// What the cache holds for `did`; the cache stays as it is.
    pub fn cached(&self, did: &str) -> (r: Option<Binding>)
        ensures
            bound_of(r) == found(self@.cache, did@),
            r matches Some(b) ==> sized(b.bound()),
    {
        self.cache.peek(did)
    }

    /// Whether resolving `did` turns to the mirror: it does unless a fetch for `did`
    /// is outstanding or the cache holds it.
    pub fn needs_mirror(&self, did: &str) -> (r: bool)
        ensures
            r == self@.consults(did@),
    {
        !self.inflight.contains(did) && self.cache.peek(did).is_none()
    }

    /// What `resolve` would answer for `did`; the resolver stays as it is.
    pub fn peek(&self, did: &str, mirror: &MirrorAnswer) -> (r: Option<Binding>)
        ensures
            bound_of(r) == self@.answer(did@, mirror.bound()),
            r matches Some(b) ==> sized(b.bound()),
    {
        if self.inflight.contains(did) {
            return None;
        }
        match self.cache.peek(did) {
            Some(b) => Some(b),
            None => read_row(mirror),
        }
    }

    /// Hands over the fetches issued since the last call, in the order of issue.
    pub fn take_requests(&mut self) -> (r: Vec<Request>)
        ensures
            fetches(r@) == old(self)@.requests,
            final(self)@ == (ResolverState { requests: Seq::empty(), ..old(self)@ }),
    {
        let mut out: Vec<Request> = Vec::new();
        std::mem::swap(&mut out, &mut self.requests);
        assert(fetches(self.requests@) =~= Seq::empty());
        out
    }

    /// Forgets what is known of `did` and asks for it anew, where an event of time
    /// `time` is later than the point up to which the ledger was imported.
    pub fn expire(&mut self, did: &str, time: Timestamp, now: u64)
        ensures
            final(self)@ == old(self)@.expired(did@, time, now),
    {
        let outdated = match parse_rfc3339(self.after.as_str()) {
            Some(t) => t.is_before(&time),
            None => true,
        };
        if outdated {
            self.cache.pop(did);
            self.request(did, now);
        }
    }

    /// The host and the key that `did` is bound to, if they are known. `mirror` is
    /// what the ledger's mirror answered for `did`; it is read only where no fetch
    /// for `did` is outstanding and the cache does not hold it. Where nothing is
    /// known, `did` is asked for. A failure of the mirror is an error.
    pub fn resolve(&mut self, did: &str, mirror: &MirrorAnswer, now: u64) -> (r: Result<
        Option<Binding>,
        ResolverError,
    >)
        ensures
            match r {
                Ok(b) => {
                    &&& !(old(self)@.consults(did@) && mirror is Failed)
                    &&& bound_of(b) == old(self)@.answer(did@, mirror.bound())
                    &&& final(self)@ == old(self)@.resolved(did@, mirror.bound(), now)
                    &&& b matches Some(binding) ==> sized(binding.bound())
                },
                Err(e) => {
                    &&& old(self)@.consults(did@)
                    &&& mirror matches MirrorAnswer::Failed(m)
                    &&& e matches ResolverError::Sqlite(t)
                    &&& t@ == m@
                    &&& final(self)@ == old(self)@
                },
            },
    {
        // the identity might have expired, so the awaited DIDs come first
        if self.inflight.contains(did) {
            return Ok(None);
        }
        match self.cache.get(did) {
            Some(b) => {
                return Ok(Some(b));
            },
            None => {},
        }
        match self.query_db(did, mirror) {
            Ok(true) => {
                proof {
                    let b = mirror.bound()->0;
                    let es = old(self)@.cache;
                    assert(stored(es, old(self)@.limit, did@, b) == seq![(did@, b)] + es
                        || stored(es, old(self)@.limit, did@, b) == seq![(did@, b)]
                        + es.drop_last());
                    lemma_found_front(did@, b, es);
                    lemma_found_front(did@, b, es.drop_last());
                }
                Ok(self.cache.peek(did))
            },
            Ok(false) => {
                self.request(did, now);
                Ok(None)
            },
            Err(e) => Err(e),
        }
    }

    /// Takes in what the mirror answered for `did`: a row that gives a binding is
    /// put into the cache. Returns whether it was; a failure of the mirror is an
    /// error.
    pub fn query_db(&mut self, did: &str, mirror: &MirrorAnswer) -> (r: Result<
        bool,
        ResolverError,
    >)
        ensures
            match r {
                Ok(hit) => {
                    &&& !(mirror is Failed)
                    &&& hit == mirror.bound() is Some
                    &&& final(self)@ == old(self)@.queried(did@, mirror.bound())
                },
                Err(e) => {
                    &&& mirror matches MirrorAnswer::Failed(m)
                    &&& e matches ResolverError::Sqlite(t)
                    &&& t@ == m@
                    &&& final(self)@ == old(self)@
                },
            },
    {
        match mirror {
            MirrorAnswer::Failed(m) => Err(ResolverError::Sqlite(m.clone())),
            _ => match read_row(mirror) {
                Some(binding) => {
                    self.cache.put(did.to_owned(), binding);
                    Ok(true)
                },
                None => Ok(false),
            },
        }
    }

    /// Marks `did` as awaited and issues the fetch for it.
    pub fn request(&mut self, did: &str, now: u64)
        ensures
            final(self)@ == old(self)@.requested(did@, now),
    {
        proof {
            reveal_strlit("did:plc:");
            reveal_strlit("did:web:");
        }
        self.inflight.insert(did.to_owned());
        if strip_prefix(did, PLC_PREFIX).is_some() {
            if self.export {
                self.send_req(None, None, now);
            } else {
                self.send_req(Some(did), None, now);
            }
        } else if let Some(web) = strip_prefix(did, WEB_PREFIX) {
            match percent_decode(web) {
                Some(host) => {
                    self.send_req(Some(did), Some(host.as_str()), now);
                },
                None => {
                    self.inflight.remove(did);
                },
            }
        } else {
            self.inflight.remove(did);
        }
        assert(old(self)@.inflight.insert(did@).remove(did@) =~= old(self)@.inflight.remove(did@));
    }

    /// Issues one fetch: for the document of `did` at the web host `web`, or at the
    /// ledger; without a DID, for the next page of the export, unless one is on its
    /// way.
    pub fn send_req(&mut self, did: Option<&str>, web: Option<&str>, now: u64)
        ensures
            final(self)@ == old(self)@.issued(chars_of_opt(did), chars_of_opt(web), now),
    {
        let ghost before = self.requests@;
        let request = match did {
            Some(did) => {
                let url = match web {
                    Some(web) => {
                        let mut url = String::from_str("https://");
                        url.append(web);
                        url.append("/");
                        url.append(DOC_PATH);
                        url
                    },
                    None => {
                        let mut url = String::from_str(PLC_URL);
                        url.append("/");
                        url.append(did);
                        url
                    },
                };
                Request { url, query: Query::Did(did.to_owned()) }
            },
            None => {
                if self.pending {
                    return ;
                }
                let after = self.after.clone();
                self.pending = true;
                self.last = now;
                let mut url = String::from_str(PLC_URL);
                url.append("/");
                url.append(PLC_EXPORT);
                url.append("=");
                url.append(after.as_str());
                Request { url, query: Query::Export(after) }
            },
        };
        self.requests.push(request);
        assert(fetches(self.requests@) =~= fetches(before).push(request.fetch()));
    }

    /// Takes in what a fetch brought back, or that none has completed, and returns
    /// the DIDs that have just become resolvable. Then, where the import is due, the
    /// next page of the export is asked for.
    pub fn poll(&mut self, completed: Option<Completed>, now: u64) -> (r: Result<
        Vec<String>,
        ResolverError,
    >)
        ensures
            old(self)@.polled(completed, now, final(self)@, r),
    {
        let ghost start = self@;
        let dids = match completed {
            None => Vec::new(),
            Some(Completed::Failed(query)) => {
                if let Query::Export(_) = query {
                    self.pending = false;
                }
                Vec::new()
            },
            Some(Completed::Document { did, doc }) => {
                let mut dids: Vec<String> = Vec::new();
                let mut bound = None;
                if let Some(doc) = doc {
                    if let Some((id, binding)) = parse_did_doc(&doc, self.labeler) {
                        if same(id.as_str(), did.as_str()) {
                            bound = Some(binding);
                        }
                    }
                }
                if let Some(binding) = bound {
                    self.inflight.remove(did.as_str());
                    self.cache.put(did.clone(), binding);
                    dids.push(did);
                    assert(names(dids@) =~= seq![did@]);
                } else {
                    assert(names(dids@) =~= Seq::<Seq<char>>::empty());
                }
                dids
            },
            Some(Completed::Export { rows, failure }) => {
                self.pending = false;
                if let Some(m) = failure {
                    return Err(ResolverError::Sqlite(m));
                }
                let mut dids = self.sweep(&rows);
                if rows.len() == PAGE {
                    self.send_req(None, None, now);
                } else {
                    // the ledger holds no more: give up the ledger DIDs still awaited
                    let ghost gathered = dids@;
                    let mut given_up = self.inflight.extract_plc();
                    let ghost tail = given_up@;
                    dids.append(&mut given_up);
                    assert(dids@.take(gathered.len() as int) =~= gathered);
                    assert(dids@.skip(gathered.len() as int) =~= tail);
                }
                dids
            },
        };
        assert(self@ == start.handled(completed, now));
        if self.export && now.saturating_sub(self.last) > self.interval {
            self.send_req(None, None, now);
        }
        Ok(dids)
    }

    /// Walks over the lines of an export page.
    fn sweep(&mut self, rows: &Vec<Option<PlcOperation>>) -> (dids: Vec<String>)
        ensures
            ({
                let s = swept(
                    rows@,
                    Sweep {
                        after: old(self)@.after,
                        inflight: old(self)@.inflight,
                        dids: Seq::empty(),
                    },
                );
                &&& final(self)@ == (ResolverState {
                    after: s.after,
                    inflight: s.inflight,
                    ..old(self)@
                })
                &&& names(dids@) == s.dids
            }),
    {
        let ghost start = Sweep {
            after: old(self)@.after,
            inflight: old(self)@.inflight,
            dids: Seq::empty(),
        };
        let mut dids: Vec<String> = Vec::new();
        let mut i: usize = 0;
        assert(names(dids@) =~= Seq::<Seq<char>>::empty());
        assert(rows@.take(0) =~= Seq::<Option<PlcOperation>>::empty());
        while i < rows.len()
            invariant
                i <= rows.len(),
                self@ == (ResolverState {
                    after: swept(rows@.take(i as int), start).after,
                    inflight: swept(rows@.take(i as int), start).inflight,
                    ..old(self)@
                }),
                names(dids@) == swept(rows@.take(i as int), start).dids,
            decreases rows.len() - i,
        {
            assert(rows@.take(i + 1).drop_last() =~= rows@.take(i as int));
            assert(rows@.take(i + 1).last() == rows@[i as int]);
            if let Some(op) = &rows[i] {
                self.after = op.created_at.clone();
                if self.inflight.remove(op.did.as_str()) {
                    let ghost before = dids@;
                    dids.push(op.did.clone());
                    assert(names(dids@) =~= names(before).push(op.did@));
                }
            }
            i += 1;
        }
        assert(rows@.take(rows@.len() as int) =~= rows@);
        dids
    }
}

/// The binding that the mirror's answer gives, if it gives one.
fn read_row(mirror: &MirrorAnswer) -> (r: Option<Binding>)
    ensures
        bound_of(r) == mirror.bound(),
        r matches Some(b) ==> sized(b.bound()),
{
    match mirror {
        MirrorAnswer::Row { endpoint, key } => {
            let endpoint = match endpoint {
                Some(e) => Some(e.as_str()),
                None => None,
            };
            let key = match key {
                Some(k) => Some(k.as_str()),
                None => None,
            };
            parse_key_endpoint(endpoint, key)
        },
        _ => None,
    }
}

} // verus!
