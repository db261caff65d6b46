//! The set of DIDs with a fetch outstanding, a hash set of the `hashbrown` crate.

use vstd::prelude::*;

use crate::text::starts_with;

verus! {

/// A DID of the public ledger begins with this.
pub const PLC_PREFIX: &'static str = "did:plc:";

/// A DID that a web host vouches for begins with this.
pub const WEB_PREFIX: &'static str = "did:web:";

pub open spec fn is_plc(did: Seq<char>) -> bool {
    PLC_PREFIX@.is_prefix_of(did)
}

pub open spec fn is_web(did: Seq<char>) -> bool {
    WEB_PREFIX@.is_prefix_of(did)
}

/// Whether `v` names each member of `s` once and nothing else.
pub open spec fn lists(v: Seq<String>, s: Set<Seq<char>>) -> bool {
    &&& forall|i: int| 0 <= i < v.len() ==> s.contains(#[trigger] v[i]@)
    &&& forall|d: Seq<char>| s.contains(d) ==> exists|i: int| 0 <= i < v.len() && #[trigger] v[i]@ == d
    &&& forall|i: int, j: int| 0 <= i < j < v.len() ==> v[i]@ != v[j]@
}

/// Whether `did` is a DID of the public ledger.
pub fn is_ledger(did: &str) -> (r: bool)
    ensures
        r == is_plc(did@),
{
    starts_with(did, PLC_PREFIX)
}

/// The DIDs with a fetch outstanding.
#[verifier::external_body]
pub struct Inflight {
    inner: hashbrown::HashSet<String>,
}

/// The members of the set.
pub uninterp spec fn inflight_dids(s: Inflight) -> Set<Seq<char>>;

impl Inflight {
    /// `hashbrown::HashSet::new`: the empty set.
    #[verifier::external_body]
    pub(crate) fn new() -> (r: Inflight)
        ensures
            inflight_dids(r) == Set::<Seq<char>>::empty(),
    {
        Inflight { inner: hashbrown::HashSet::new() }
    }

    /// `hashbrown::HashSet::contains`: whether `did` is a member.
    #[verifier::external_body]
    pub(crate) fn contains(&self, did: &str) -> (r: bool)
        ensures
            r == inflight_dids(*self).contains(did@),
    {
        self.inner.contains(did)
    }

    /// `hashbrown::HashSet::insert`: makes `did` a member.
    #[verifier::external_body]
    pub(crate) fn insert(&mut self, did: String)
        ensures
            inflight_dids(*final(self)) == inflight_dids(*old(self)).insert(did@),
    {
        self.inner.insert(did);
    }

    /// `hashbrown::HashSet::remove`: takes `did` out and says whether it was a member.
    #[verifier::external_body]
    pub(crate) fn remove(&mut self, did: &str) -> (r: bool)
        ensures
            r == inflight_dids(*old(self)).contains(did@),
            inflight_dids(*final(self)) == inflight_dids(*old(self)).remove(did@),
    {
        self.inner.remove(did)
    }

    /// `hashbrown::HashSet::extract_if`: takes out the members of the public ledger
    /// and returns them, each once, in the order in which the set is walked.
    #[verifier::external_body]
    pub(crate) fn extract_plc(&mut self) -> (r: Vec<String>)
        ensures
            lists(r@, inflight_dids(*old(self)).filter(|d: Seq<char>| is_plc(d))),
            inflight_dids(*final(self)) == inflight_dids(*old(self)).filter(
                |d: Seq<char>| !is_plc(d),
            ),
    {
        self.inner.extract_if(|did| is_ledger(did.as_str())).collect()
    }
}

} // verus!
