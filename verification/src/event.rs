//! Upstream events, as far as the relay reads them.

use vstd::prelude::*;

use crate::text::same;
use crate::types::Timestamp;

verus! {

/// What a signed commit says of its repository.
#[derive(Clone, Debug)]
pub struct Commit {
    pub did: String,
    pub rev: String,
    pub data: Vec<u8>,
}

/// The blocks that a commit-bearing event carries, once decoded.
#[derive(Clone, Debug)]
pub enum Blocks {
    /// The signed commit and the identifier of the block that holds it.
    Decoded { commit: Commit, head: Vec<u8> },
    /// The blocks could not be decoded.
    Malformed,
}

/// What every event says: the upstream sequence number, the time and the subject.
#[derive(Clone, Debug)]
pub struct Envelope {
    pub seq: u64,
    pub time: Timestamp,
    pub did: String,
}

#[derive(Clone, Debug)]
pub enum SubscribeReposEvent {
    Commit { envelope: Envelope, commit: Vec<u8>, blocks: Blocks },
    Sync { envelope: Envelope, blocks: Blocks },
    Identity(Envelope),
    Account(Envelope),
    Handle(Envelope),
    Migrate(Envelope),
    Tombstone(Envelope),
    Info(Envelope),
}

/// The embedded blocks of an event could not be decoded.
#[derive(Clone, Copy, Debug, PartialEq, Eq, Structural)]
pub struct DecodeError;

impl SubscribeReposEvent {
    pub open spec fn envelope(self) -> Envelope {
        match self {
            SubscribeReposEvent::Commit { envelope, .. } => envelope,
            SubscribeReposEvent::Sync { envelope, .. } => envelope,
            SubscribeReposEvent::Identity(envelope) => envelope,
            SubscribeReposEvent::Account(envelope) => envelope,
            SubscribeReposEvent::Handle(envelope) => envelope,
            SubscribeReposEvent::Migrate(envelope) => envelope,
            SubscribeReposEvent::Tombstone(envelope) => envelope,
            SubscribeReposEvent::Info(envelope) => envelope,
        }
    }

    /// The blocks of a commit-bearing event.
    pub open spec fn blocks(self) -> Option<Blocks> {
        match self {
            SubscribeReposEvent::Commit { blocks, .. } => Some(blocks),
            SubscribeReposEvent::Sync { blocks, .. } => Some(blocks),
            _ => None,
        }
    }

    /// Whether the decoded commit agrees with what the event announces: it is the
    /// commit of the event's subject, and where the event names the commit's
    /// identifier, that is the identifier of the block that holds it.
    pub open spec fn consistent(self, commit: Commit, head: Vec<u8>) -> bool {
        &&& commit.did@ == self.envelope().did@
        &&& (self matches SubscribeReposEvent::Commit { commit: announced, .. } ==> announced@
            == head@)
    }

    fn envelope_ref(&self) -> (r: &Envelope)
        ensures
            *r == self.envelope(),
    {
        match self {
            SubscribeReposEvent::Commit { envelope, .. } => envelope,
            SubscribeReposEvent::Sync { envelope, .. } => envelope,
            SubscribeReposEvent::Identity(envelope) => envelope,
            SubscribeReposEvent::Account(envelope) => envelope,
            SubscribeReposEvent::Handle(envelope) => envelope,
            SubscribeReposEvent::Migrate(envelope) => envelope,
            SubscribeReposEvent::Tombstone(envelope) => envelope,
            SubscribeReposEvent::Info(envelope) => envelope,
        }
    }

    /// The name of the event's kind on the wire.
    pub fn type_(&self) -> (r: &'static str)
        ensures
            r@ == match *self {
                SubscribeReposEvent::Commit { .. } => "#commit"@,
                SubscribeReposEvent::Sync { .. } => "#sync"@,
                SubscribeReposEvent::Identity(_) => "#identity"@,
                SubscribeReposEvent::Account(_) => "#account"@,
                SubscribeReposEvent::Handle(_) => "#handle"@,
                SubscribeReposEvent::Migrate(_) => "#migrate"@,
                SubscribeReposEvent::Tombstone(_) => "#tombstone"@,
                SubscribeReposEvent::Info(_) => "#info"@,
            },
    {
        match self {
            SubscribeReposEvent::Commit { .. } => "#commit",
            SubscribeReposEvent::Sync { .. } => "#sync",
            SubscribeReposEvent::Identity(_) => "#identity",
            SubscribeReposEvent::Account(_) => "#account",
            SubscribeReposEvent::Handle(_) => "#handle",
            SubscribeReposEvent::Migrate(_) => "#migrate",
            SubscribeReposEvent::Tombstone(_) => "#tombstone",
            SubscribeReposEvent::Info(_) => "#info",
        }
    }

    /// The sequence number that the upstream host gave the event.
    pub fn seq(&self) -> (r: u64)
        ensures
            r == self.envelope().seq,
    {
        self.envelope_ref().seq
    }

    pub fn time(&self) -> (r: Timestamp)
        ensures
            r == self.envelope().time,
    {
        self.envelope_ref().time
    }

    /// The account that the event is about.
    pub fn did(&self) -> (r: &str)
        ensures
            r@ == self.envelope().did@,
    {
        self.envelope_ref().did.as_str()
    }

    /// The signed commit of a commit-bearing event with the identifier of its block;
    /// `None` for an event that bears none; an error where the blocks are malformed.
    pub fn commit(&self) -> (r: Result<Option<(&Commit, &Vec<u8>)>, DecodeError>)
        ensures
            match self.blocks() {
                None => r == Ok::<Option<(&Commit, &Vec<u8>)>, DecodeError>(None),
                Some(Blocks::Malformed) => r is Err,
                Some(Blocks::Decoded { commit, head }) => r == Ok::<
                    Option<(&Commit, &Vec<u8>)>,
                    DecodeError,
                >(Some((&commit, &head))),
            },
    {
        let blocks = match self {
            SubscribeReposEvent::Commit { blocks, .. } => blocks,
            SubscribeReposEvent::Sync { blocks, .. } => blocks,
            _ => {
                return Ok(None);
            },
        };
        match blocks {
            Blocks::Decoded { commit, head } => Ok(Some((commit, head))),
            Blocks::Malformed => Err(DecodeError),
        }
    }

    /// Checks the decoded commit against what the event announces.
    pub fn validate(&self, commit: &Commit, head: &Vec<u8>) -> (r: bool)
        ensures
            r == self.consistent(*commit, *head),
    {
        if !same(commit.did.as_str(), self.did()) {
            return false;
        }
        match self {
            SubscribeReposEvent::Commit { commit: announced, .. } => bytes_equal(announced, head),
            _ => true,
        }
    }
}

/// Whether two byte strings are the same.
pub fn bytes_equal(a: &Vec<u8>, b: &Vec<u8>) -> (r: bool)
    ensures
        r == (a@ == b@),
{
    if a.len() != b.len() {
        return false;
    }
    let mut i: usize = 0;
    while i < a.len()
        invariant
            a.len() == b.len(),
            i <= a.len(),
            forall|k: int| 0 <= k < i ==> a@[k] == b@[k],
        decreases a.len() - i,
    {
        if a[i] != b[i] {
            return false;
        }
        i += 1;
    }
    assert(a@ =~= b@);
    true
}

} // verus!
