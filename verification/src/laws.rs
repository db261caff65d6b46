//! What holds of every run of the relay.

use vstd::prelude::*;

use crate::cache::{found, without, Bound, Slot};
use crate::inflight::{is_plc, is_web, WEB_PREFIX};
use crate::event::{Blocks, Commit};
use crate::manager::{arranged, Act, ManagerState, Parsed, Queued};
use crate::publisher::{offered, polled, Entry, Link, Report};
use crate::resolver::{
    export_url, percent_decoded, Ask, Completed, Fetch, Query, ResolverError, ResolverState,
};
use crate::tables::{lookup, Repo};
use crate::text::{lemma_lex_le_refl, lemma_lex_le_trans, lex_le};
use crate::types::Timestamp;

verus! {

/// One thing that happens to the validator: a message arrives, or the queue of a DID
/// is scanned.
pub enum Input {
    Message { host: Seq<char>, frame: Parsed, row: Option<Bound>, verified: bool, now: u64 },
    Scan { did: Seq<char>, row: Option<Bound>, records: Seq<Queued>, now: u64 },
}

/// The state after one input, and what was decided in it, in order.
pub open spec fn stepped(s: ManagerState, input: Input) -> (ManagerState, Seq<Act>) {
    match input {
        Input::Message { host, frame, row, verified, now } => {
            let (next, act) = s.updated(host, frame, row, verified, now);
            (next, seq![act])
        },
        Input::Scan { did, row, records, now } => {
            let (next, acts) = s.scanned(did, row, records, now);
            (
                next,
                match acts {
                    Some(acts) => acts,
                    None => Seq::empty(),
                },
            )
        },
    }
}

/// The state after a run of inputs, and everything that was decided in it, in order.
pub open spec fn ran(s: ManagerState, inputs: Seq<Input>) -> (ManagerState, Seq<Act>)
    decreases inputs.len(),
{
    if inputs.len() == 0 {
        (s, Seq::empty())
    } else {
        let (state, acts) = ran(s, inputs.drop_last());
        let (next, more) = stepped(state, inputs.last());
        (next, acts + more)
    }
}

/// Whether the cursors published in `acts` rise strictly and lie behind `lo`, up to
/// `hi`.
pub open spec fn rising(acts: Seq<Act>, lo: nat, hi: nat) -> bool {
    &&& forall|i: int|
        0 <= i < acts.len() ==> (#[trigger] acts[i] matches Act::Published(c) ==> lo < c <= hi)
    &&& forall|i: int, j: int|
        0 <= i < j < acts.len() ==> (#[trigger] acts[i] matches Act::Published(a) ==> (
        #[trigger] acts[j] matches Act::Published(b) ==> a < b))
}

proof fn lemma_rising_concat(acts: Seq<Act>, more: Seq<Act>, lo: nat, mid: nat, hi: nat)
    requires
        rising(acts, lo, mid),
        rising(more, mid, hi),
        lo <= mid <= hi,
    ensures
        rising(acts + more, lo, hi),
{
    let all = acts + more;
    assert forall|i: int| 0 <= i < all.len() implies (#[trigger] all[i] matches Act::Published(c)
        ==> lo < c <= hi) by {
        if i < acts.len() {
            assert(all[i] == acts[i]);
        } else {
            assert(all[i] == more[i - acts.len()]);
        }
    }
    assert forall|i: int, j: int| 0 <= i < j < all.len() implies (
    #[trigger] all[i] matches Act::Published(a) ==> (#[trigger] all[j] matches Act::Published(b)
        ==> a < b)) by {
        if i < acts.len() {
            assert(all[i] == acts[i]);
        } else {
            assert(all[i] == more[i - acts.len()]);
        }
        if j < acts.len() {
            assert(all[j] == acts[j]);
        } else {
            assert(all[j] == more[j - acts.len()]);
        }
    }
}

proof fn lemma_replayed_all_rising(
    s: ManagerState,
    did: Seq<char>,
    bound: Bound,
    records: Seq<Queued>,
)
    ensures
        s.cursor <= s.replayed_all(did, bound, records).0.cursor,
        rising(
            s.replayed_all(did, bound, records).1,
            s.cursor,
            s.replayed_all(did, bound, records).0.cursor,
        ),
        s.replayed_all(did, bound, records).0.hosts == s.hosts,
    decreases records.len(),
{
    if records.len() > 0 {
        lemma_replayed_all_rising(s, did, bound, records.drop_last());
        let (state, acts) = s.replayed_all(did, bound, records.drop_last());
        let (next, act) = state.replayed(did, bound, records.last());
        assert(rising(seq![act], state.cursor, next.cursor));
        lemma_rising_concat(acts, seq![act], s.cursor, state.cursor, next.cursor);
        assert(acts.push(act) =~= acts + seq![act]);
    }
}

proof fn lemma_stepped_rising(s: ManagerState, input: Input)
    ensures
        s.cursor <= stepped(s, input).0.cursor,
        rising(stepped(s, input).1, s.cursor, stepped(s, input).0.cursor),
{
    match input {
        Input::Message { host, frame, row, verified, now } => {
            let (next, act) = s.updated(host, frame, row, verified, now);
            assert(rising(seq![act], s.cursor, next.cursor));
        },
        Input::Scan { did, row, records, now } => {
            let resolved = ManagerState { resolver: s.resolver.resolved(did, row, now), ..s };
            match s.resolver.answer(did, row) {
                Some(bound) => {
                    lemma_replayed_all_rising(resolved, did, bound, arranged(records));
                },
                None => {},
            }
        },
    }
}

proof fn lemma_ran_rising(s: ManagerState, inputs: Seq<Input>)
    ensures
        s.cursor <= ran(s, inputs).0.cursor,
        rising(ran(s, inputs).1, s.cursor, ran(s, inputs).0.cursor),
    decreases inputs.len(),
{
    if inputs.len() > 0 {
        lemma_ran_rising(s, inputs.drop_last());
        let (state, acts) = ran(s, inputs.drop_last());
        lemma_stepped_rising(state, inputs.last());
        let (next, more) = stepped(state, inputs.last());
        lemma_rising_concat(acts, more, s.cursor, state.cursor, next.cursor);
    }
}

/// In every run, the cursors under which events are published rise strictly, in the
/// order in which they are given out, whether an event is published on arrival or
/// from the queue; and each lies behind the cursor that the run started from.
pub proof fn law_cursors_rise(s: ManagerState, inputs: Seq<Input>, i: int, j: int)
    requires
        0 <= i < j < ran(s, inputs).1.len(),
        ran(s, inputs).1[i] is Published,
        ran(s, inputs).1[j] is Published,
    ensures
        s.cursor < ran(s, inputs).1[i]->Published_0 < ran(s, inputs).1[j]->Published_0,
{
    lemma_ran_rising(s, inputs);
}

/// Whether a message was taken from its host: it was published or it waits in the
/// queue.
pub open spec fn taken(act: Act) -> bool {
    act is Published || act is Queued
}

/// The state in which the input `k` of a run arrives.
pub open spec fn state_at(s: ManagerState, inputs: Seq<Input>, k: int) -> ManagerState {
    ran(s, inputs.take(k)).0
}

proof fn lemma_state_next(s: ManagerState, inputs: Seq<Input>, k: int)
    requires
        0 <= k < inputs.len(),
    ensures
        state_at(s, inputs, k + 1) == stepped(state_at(s, inputs, k), inputs[k]).0,
{
    assert(inputs.take(k + 1).drop_last() =~= inputs.take(k));
    assert(inputs.take(k + 1).last() == inputs[k]);
}

proof fn lemma_hosts_step(s: ManagerState, input: Input, h: Seq<char>)
    requires
        lookup(s.hosts, h) is Some,
    ensures
        lookup(stepped(s, input).0.hosts, h) is Some,
        lookup(stepped(s, input).0.hosts, h)->0.seq >= lookup(s.hosts, h)->0.seq,
{
    match input {
        Input::Message { host, frame, row, verified, now } => {},
        Input::Scan { did, row, records, now } => {
            let resolved = ManagerState { resolver: s.resolver.resolved(did, row, now), ..s };
            match s.resolver.answer(did, row) {
                Some(bound) => {
                    lemma_replayed_all_rising(resolved, did, bound, arranged(records));
                },
                None => {},
            }
        },
    }
}

proof fn lemma_hosts_kept(s: ManagerState, inputs: Seq<Input>, a: int, b: int, h: Seq<char>)
    requires
        0 <= a <= b <= inputs.len(),
        lookup(state_at(s, inputs, a).hosts, h) is Some,
    ensures
        lookup(state_at(s, inputs, b).hosts, h) is Some,
        lookup(state_at(s, inputs, b).hosts, h)->0.seq >= lookup(
            state_at(s, inputs, a).hosts,
            h,
        )->0.seq,
    decreases b - a,
{
    if a < b {
        lemma_hosts_kept(s, inputs, a, b - 1, h);
        lemma_state_next(s, inputs, b - 1);
        lemma_hosts_step(state_at(s, inputs, b - 1), inputs[b - 1], h);
    }
}

/// In every run, the messages taken from one host bear strictly rising sequence
/// numbers, in the order of their arrival.
pub proof fn law_host_sequence_rises(s: ManagerState, inputs: Seq<Input>, i: int, j: int)
    requires
        0 <= i < j < inputs.len(),
        inputs[i] is Message,
        inputs[j] is Message,
        inputs[i]->Message_host == inputs[j]->Message_host,
        inputs[i]->Message_frame is Event,
        inputs[j]->Message_frame is Event,
        taken(stepped(state_at(s, inputs, i), inputs[i]).1[0]),
        taken(stepped(state_at(s, inputs, j), inputs[j]).1[0]),
    ensures
        inputs[i]->Message_frame->Event_0.envelope().seq
            < inputs[j]->Message_frame->Event_0.envelope().seq,
{
    let h = inputs[i]->Message_host;
    lemma_state_next(s, inputs, i);
    lemma_hosts_kept(s, inputs, i + 1, j, h);
}

/// The revision recorded of the repository of `did`.
pub open spec fn revision(repos: Map<Seq<char>, Repo>, did: Seq<char>) -> Seq<char> {
    match lookup(repos, did) {
        Some(r) => r.0,
        None => Seq::empty(),
    }
}

proof fn lemma_repos_replayed_all(
    s: ManagerState,
    did: Seq<char>,
    bound: Bound,
    records: Seq<Queued>,
    d: Seq<char>,
)
    requires
        lookup(s.repos, d) is Some,
    ensures
        lookup(s.replayed_all(did, bound, records).0.repos, d) is Some,
        lex_le(
            revision(s.repos, d),
            revision(s.replayed_all(did, bound, records).0.repos, d),
        ),
    decreases records.len(),
{
    if records.len() > 0 {
        lemma_repos_replayed_all(s, did, bound, records.drop_last(), d);
        let (state, acts) = s.replayed_all(did, bound, records.drop_last());
        let (next, act) = state.replayed(did, bound, records.last());
        lemma_lex_le_refl(revision(state.repos, d));
        lemma_lex_le_trans(
            revision(s.repos, d),
            revision(state.repos, d),
            revision(next.repos, d),
        );
    } else {
        lemma_lex_le_refl(revision(s.repos, d));
    }
}

proof fn lemma_repos_step(s: ManagerState, input: Input, d: Seq<char>)
    requires
        lookup(s.repos, d) is Some,
    ensures
        lookup(stepped(s, input).0.repos, d) is Some,
        lex_le(revision(s.repos, d), revision(stepped(s, input).0.repos, d)),
{
    lemma_lex_le_refl(revision(s.repos, d));
    match input {
        Input::Message { host, frame, row, verified, now } => {},
        Input::Scan { did, row, records, now } => {
            let resolved = ManagerState { resolver: s.resolver.resolved(did, row, now), ..s };
            match s.resolver.answer(did, row) {
                Some(bound) => {
                    lemma_repos_replayed_all(resolved, did, bound, arranged(records), d);
                },
                None => {},
            }
        },
    }
}

/// In every run, the revision recorded of a repository never goes back: whatever
/// commits are taken for it, on arrival or from the queue, each bears a revision
/// that is not older than the one recorded before it.
pub proof fn law_revisions_never_go_back(s: ManagerState, inputs: Seq<Input>, did: Seq<char>)
    requires
        lookup(s.repos, did) is Some,
    ensures
        lookup(ran(s, inputs).0.repos, did) is Some,
        lex_le(revision(s.repos, did), revision(ran(s, inputs).0.repos, did)),
    decreases inputs.len(),
{
    if inputs.len() > 0 {
        law_revisions_never_go_back(s, inputs.drop_last(), did);
        let (state, acts) = ran(s, inputs.drop_last());
        lemma_repos_step(state, inputs.last(), did);
        lemma_lex_le_trans(
            revision(s.repos, did),
            revision(state.repos, did),
            revision(ran(s, inputs).0.repos, did),
        );
    } else {
        lemma_lex_le_refl(revision(s.repos, did));
    }
}

proof fn lemma_repos_kept(s: ManagerState, inputs: Seq<Input>, a: int, b: int, d: Seq<char>)
    requires
        0 <= a <= b <= inputs.len(),
        lookup(state_at(s, inputs, a).repos, d) is Some,
    ensures
        lookup(state_at(s, inputs, b).repos, d) is Some,
        lex_le(
            revision(state_at(s, inputs, a).repos, d),
            revision(state_at(s, inputs, b).repos, d),
        ),
    decreases b - a,
{
    if a < b {
        lemma_repos_kept(s, inputs, a, b - 1, d);
        lemma_state_next(s, inputs, b - 1);
        lemma_repos_step(state_at(s, inputs, b - 1), inputs[b - 1], d);
        lemma_lex_le_trans(
            revision(state_at(s, inputs, a).repos, d),
            revision(state_at(s, inputs, b - 1).repos, d),
            revision(state_at(s, inputs, b).repos, d),
        );
    } else {
        lemma_lex_le_refl(revision(state_at(s, inputs, a).repos, d));
    }
}

proof fn lemma_labeler_replayed_all(
    s: ManagerState,
    did: Seq<char>,
    bound: Bound,
    records: Seq<Queued>,
)
    ensures
        s.replayed_all(did, bound, records).0.labeler == s.labeler,
    decreases records.len(),
{
    if records.len() > 0 {
        lemma_labeler_replayed_all(s, did, bound, records.drop_last());
    }
}

proof fn lemma_labeler_kept(s: ManagerState, inputs: Seq<Input>, k: int)
    requires
        0 <= k <= inputs.len(),
    ensures
        state_at(s, inputs, k).labeler == s.labeler,
    decreases k,
{
    if k > 0 {
        lemma_labeler_kept(s, inputs, k - 1);
        lemma_state_next(s, inputs, k - 1);
        let before = state_at(s, inputs, k - 1);
        match inputs[k - 1] {
            Input::Message { .. } => {},
            Input::Scan { did, row, records, now } => {
                let resolved = ManagerState {
                    resolver: before.resolver.resolved(did, row, now),
                    ..before
                };
                match before.resolver.answer(did, row) {
                    Some(bound) => {
                        lemma_labeler_replayed_all(resolved, did, bound, arranged(records));
                    },
                    None => {},
                }
            },
        }
    } else {
        assert(inputs.take(0) =~= Seq::<Input>::empty());
    }
}

/// The commit that a message brings into the log on its arrival, if it brings one.
pub open spec fn commit_published(s: ManagerState, input: Input) -> Option<Commit> {
    match input {
        Input::Message { frame: Parsed::Event(event), .. } => match event.blocks() {
            Some(Blocks::Decoded { commit, .. }) => if stepped(s, input).1[0] is Published {
                Some(commit)
            } else {
                None
            },
            _ => None,
        },
        _ => None,
    }
}

/// In every run of a relay of repositories, the commits of one repository that are
/// published on arrival bear revisions that never go back, in the order of their arrival, whatever is
/// published from the queue in between.
pub proof fn law_revisions_rise(s: ManagerState, inputs: Seq<Input>, i: int, j: int)
    requires
        !s.labeler,
        0 <= i < j < inputs.len(),
        commit_published(state_at(s, inputs, i), inputs[i]) is Some,
        commit_published(state_at(s, inputs, j), inputs[j]) is Some,
        commit_published(state_at(s, inputs, i), inputs[i])->0.did@ == commit_published(
            state_at(s, inputs, j),
            inputs[j],
        )->0.did@,
    ensures
        lex_le(
            commit_published(state_at(s, inputs, i), inputs[i])->0.rev@,
            commit_published(state_at(s, inputs, j), inputs[j])->0.rev@,
        ),
{
    let first = commit_published(state_at(s, inputs, i), inputs[i])->0;
    let second = commit_published(state_at(s, inputs, j), inputs[j])->0;
    lemma_labeler_kept(s, inputs, i);
    lemma_labeler_kept(s, inputs, j);
    lemma_state_next(s, inputs, i);
    assert(revision(state_at(s, inputs, i + 1).repos, first.did@) == first.rev@);
    lemma_repos_kept(s, inputs, i + 1, j, first.did@);
    lemma_lex_le_trans(
        first.rev@,
        revision(state_at(s, inputs, j).repos, first.did@),
        second.rev@,
    );
}

/// In a relay of repositories, a commit that is published becomes the state of its
/// repository, and its revision is not older than the one recorded before.
pub proof fn law_published_commit_is_recorded(s: ManagerState, commit: Commit, head: Seq<u8>)
    requires
        !s.labeler,
        s.admitted(commit, head).1 is Published,
    ensures
        lookup(s.admitted(commit, head).0.repos, commit.did@) == Some(
            (commit.rev@, commit.data@, head),
        ),
        lookup(s.repos, commit.did@) matches Some(prev) ==> lex_le(prev.0, commit.rev@),
{
}

/// A DID of the ledger, or of a web host whose name can be read, that does not
/// resolve is awaited from then on: a fetch for it is outstanding.
pub proof fn law_unresolved_is_awaited(s: ResolverState, did: Seq<char>, row: Option<Bound>, now: u64)
    requires
        s.answer(did, row) is None,
        is_plc(did) || (is_web(did) && percent_decoded(did.skip(WEB_PREFIX@.len() as int))
            is Some),
    ensures
        s.resolved(did, row, now).inflight.contains(did),
{
}

/// A DID that is not awaited before it is asked for is awaited afterwards only if it
/// can be fetched: it is a DID of the ledger, or of a web host whose name can be read.
pub proof fn law_awaited_can_be_fetched(s: ResolverState, did: Seq<char>, now: u64)
    requires
        !s.inflight.contains(did),
        s.requested(did, now).inflight.contains(did),
    ensures
        is_plc(did) || (is_web(did) && percent_decoded(did.skip(WEB_PREFIX@.len() as int))
            is Some),
{
}

/// An event that is later than the point up to which the ledger was imported makes a
/// DID forgotten, also while a page of the export is on its way.
pub proof fn law_expiry_forgets(s: ResolverState, did: Seq<char>, time: Timestamp, now: u64)
    requires
        s.outdated(time),
    ensures
        found(s.expired(did, time, now).cache, did) is None,
{
    lemma_without_forgets(s.cache, did);
}

proof fn lemma_without_forgets(es: Seq<Slot>, k: Seq<char>)
    ensures
        found(without(es, k), k) is None,
    decreases es.len(),
{
    if es.len() > 0 {
        lemma_without_forgets(es.drop_first(), k);
        if es[0].0 != k {
            assert((seq![es[0]] + without(es.drop_first(), k)).drop_first() =~= without(
                es.drop_first(),
                k,
            ));
        }
    }
}

/// After a fetch of the export has failed, the import stands where it stood, and
/// the page is asked for again as soon as the import is due: at once where it is
/// due already, and otherwise no page is on its way, so that nothing hinders the
/// next.
pub proof fn law_failed_export_is_retried(
    s: ResolverState,
    after: String,
    post: ResolverState,
    r: Result<Vec<String>, ResolverError>,
    now: u64,
)
    requires
        s.polled(Some(Completed::Failed(Query::Export(after))), now, post, r),
    ensures
        post.after == s.after,
        post.inflight == s.inflight,
        r matches Ok(dids) && dids@.len() == 0,
        s.due(now) ==> post.pending && post.requests == s.requests.push(
            Fetch { url: export_url(s.after), ask: Ask::Export(s.after) },
        ),
        !s.due(now) ==> !post.pending && post.requests == s.requests,
{
}

/// A web DID whose host's name cannot be read is not awaited once it was asked
/// for, and no fetch is issued for it.
pub proof fn law_unreadable_host_is_not_awaited(s: ResolverState, did: Seq<char>, now: u64)
    requires
        !is_plc(did),
        is_web(did),
        percent_decoded(did.skip(WEB_PREFIX@.len() as int)) is None,
    ensures
        s.requested(did, now).inflight == s.inflight.remove(did),
        s.requested(did, now).requests == s.requests,
{
}

/// The keys of the records handed to a scan.
pub open spec fn keys_of(records: Seq<Queued>) -> Set<Seq<char>> {
    Set::new(|k: Seq<char>| exists|i: int| 0 <= i < records.len() && (#[trigger] records[i]).key@ == k)
}

/// The keys that wait in the queue after one input, where `queue` waited before it:
/// a message that is queued adds its key, and a scan of a DID that resolves takes
/// out the keys of the records handed to it.
pub open spec fn waiting_after(s: ManagerState, queue: Set<Seq<char>>, input: Input) -> Set<
    Seq<char>,
> {
    match input {
        Input::Message { .. } => match stepped(s, input).1[0] {
            Act::Queued(key) => queue.insert(key),
            _ => queue,
        },
        Input::Scan { did, row, records, now } => match s.scanned(did, row, records, now).1 {
            Some(_) => queue.difference(keys_of(records)),
            None => queue,
        },
    }
}

/// A record leaves the queue in a step if and only if the step is a scan of a DID
/// that resolves and the record is among those handed to the scan.
pub proof fn law_queue_leaves_by_scan(
    s: ManagerState,
    queue: Set<Seq<char>>,
    input: Input,
    key: Seq<char>,
)
    requires
        queue.contains(key),
    ensures
        !waiting_after(s, queue, input).contains(key) <==> (input matches Input::Scan {
            did,
            row,
            records,
            ..
        } && s.resolver.answer(did, row) is Some && keys_of(records).contains(key)),
{
}

/// What a subscriber's connection is offered: a frame that was just published, or a
/// poll at the live tail.
pub enum Offer {
    Frame { seq: u64, len: usize },
    Poll { seq: u64, report: Report },
}

/// The cursors of the frames that a connection takes from the records read for it.
pub open spec fn taken_from(link: Link, entries: Seq<Entry>) -> Seq<u64>
    decreases entries.len(),
{
    if entries.len() == 0 || !link.next_is(entries[0].cursor.0) || !link.fits(entries[0].len) {
        Seq::empty()
    } else {
        seq![entries[0].cursor.0] + taken_from(
            link.took(entries[0].cursor.0, entries[0].len),
            entries.drop_first(),
        )
    }
}

/// What becomes of a place of the table at one offer, and the cursors of the frames
/// taken for its subscriber.
pub open spec fn served_once(slot: Option<Link>, offer: Offer) -> (Option<Link>, Seq<u64>) {
    match slot {
        None => (None, Seq::empty()),
        Some(link) => match offer {
            Offer::Frame { seq, len } => (
                offered(slot, seq, len).0,
                if offered(slot, seq, len).1 is Taken {
                    seq![seq]
                } else {
                    Seq::empty()
                },
            ),
            Offer::Poll { seq, report } => (
                polled(slot, seq, report),
                match report.written {
                    Ok(written) => if link.drained(written).cursor <= seq {
                        taken_from(link.drained(written), report.read@)
                    } else {
                        Seq::empty()
                    },
                    Err(_) => Seq::empty(),
                },
            ),
        },
    }
}

/// What becomes of a place of the table over a run of offers, and the cursors of
/// the frames taken for its subscriber, in order.
pub open spec fn served(slot: Option<Link>, offers: Seq<Offer>) -> (Option<Link>, Seq<u64>)
    decreases offers.len(),
{
    if offers.len() == 0 {
        (slot, Seq::empty())
    } else {
        let (mid, frames) = served(slot, offers.drop_last());
        let (next, more) = served_once(mid, offers.last());
        (next, frames + more)
    }
}

proof fn lemma_taken_from(link: Link, entries: Seq<Entry>)
    ensures
        link.filled(entries).cursor == link.cursor + taken_from(link, entries).len(),
        forall|i: int|
            0 <= i < taken_from(link, entries).len() ==> #[trigger] taken_from(link, entries)[i]
                == link.cursor + 1 + i,
    decreases entries.len(),
{
    if !(entries.len() == 0 || !link.next_is(entries[0].cursor.0) || !link.fits(entries[0].len)) {
        let next = link.took(entries[0].cursor.0, entries[0].len);
        lemma_taken_from(next, entries.drop_first());
        let rest = taken_from(next, entries.drop_first());
        let all = taken_from(link, entries);
        assert forall|i: int| 0 <= i < all.len() implies #[trigger] all[i] == link.cursor + 1
            + i by {
            if i > 0 {
                assert(all[i] == rest[i - 1]);
            }
        }
    }
}

proof fn lemma_served(link: Link, offers: Seq<Offer>)
    ensures
        served(Some(link), offers).0 matches Some(end) ==> end.cursor == link.cursor + served(
            Some(link),
            offers,
        ).1.len(),
        forall|i: int|
            0 <= i < served(Some(link), offers).1.len() ==> #[trigger] served(
                Some(link),
                offers,
            ).1[i] == link.cursor + 1 + i,
    decreases offers.len(),
{
    if offers.len() > 0 {
        lemma_served(link, offers.drop_last());
        let (mid, frames) = served(Some(link), offers.drop_last());
        let (next, more) = served_once(mid, offers.last());
        let all = frames + more;
        match mid {
            Some(m) => {
                match offers.last() {
                    Offer::Frame { seq, len } => {},
                    Offer::Poll { seq, report } => {
                        match report.written {
                            Ok(written) => {
                                lemma_taken_from(m.drained(written), report.read@);
                            },
                            Err(_) => {},
                        }
                    },
                }
                assert forall|i: int| 0 <= i < all.len() implies #[trigger] all[i] == link.cursor
                    + 1 + i by {
                    if i >= frames.len() {
                        assert(all[i] == more[i - frames.len()]);
                    } else {
                        assert(all[i] == frames[i]);
                    }
                }
            },
            None => {
                assert(all =~= frames);
            },
        }
    }
}

/// A subscriber that joins at a cursor is given the frame behind it, then the one
/// behind that, and so on without a gap, for as long as its connection lasts.
pub proof fn law_subscriber_gets_every_frame(link: Link, offers: Seq<Offer>, i: int)
    requires
        0 <= i < served(Some(link), offers).1.len(),
    ensures
        served(Some(link), offers).1[i] == link.cursor + 1 + i,
{
    lemma_served(link, offers);
}

} // verus!
