//! The validator's two tables, hash maps of the `hashbrown` crate: what each host
//! last sent, and where each repository stands.

use vstd::prelude::*;

use crate::types::Timestamp;

verus! {

/// What is recorded of an upstream host: the sequence number of the last message
/// taken from it and the latest event time seen on it.
#[derive(Clone, Copy, Debug, PartialEq, Eq, Structural)]
pub struct HostRecord {
    pub seq: u64,
    pub time: Timestamp,
}

/// Where a repository stands: the revision, the data root and the head of the last
/// commit taken.
#[derive(Clone, Debug)]
pub struct RepoState {
    pub rev: String,
    pub data: Vec<u8>,
    pub head: Vec<u8>,
}

/// A repository's state as plain values: revision, data root, head.
pub type Repo = (Seq<char>, Seq<u8>, Seq<u8>);

impl RepoState {
    pub open spec fn repo(self) -> Repo {
        (self.rev@, self.data@, self.head@)
    }
}

pub open spec fn repo_of(s: Option<RepoState>) -> Option<Repo> {
    match s {
        Some(s) => Some(s.repo()),
        None => None,
    }
}

/// What a map holds for a key, if it holds the key.
pub open spec fn lookup<V>(m: Map<Seq<char>, V>, k: Seq<char>) -> Option<V> {
    if m.contains_key(k) {
        Some(m[k])
    } else {
        None
    }
}

/// The table of hosts that holds nothing.
pub open spec fn no_hosts() -> Map<Seq<char>, HostRecord> {
    Map::empty()
}

/// The table of repositories that holds nothing.
pub open spec fn no_repos() -> Map<Seq<char>, Repo> {
    Map::empty()
}

/// Whether `v` names each host of `m` once, with its record, and nothing else.
pub open spec fn lists_hosts(v: Seq<(String, HostRecord)>, m: Map<Seq<char>, HostRecord>) -> bool {
    &&& forall|i: int| 0 <= i < v.len() ==> lookup(m, (#[trigger] v[i]).0@) == Some(v[i].1)
    &&& forall|k: Seq<char>|
        m.contains_key(k) ==> exists|i: int| 0 <= i < v.len() && (#[trigger] v[i]).0@ == k
    &&& forall|i: int, j: int| 0 <= i < j < v.len() ==> v[i].0@ != v[j].0@
}

/// Whether `v` names each repository of `m` once, with its state, and nothing else.
pub open spec fn lists_repos(v: Seq<(String, RepoState)>, m: Map<Seq<char>, Repo>) -> bool {
    &&& forall|i: int| 0 <= i < v.len() ==> lookup(m, (#[trigger] v[i]).0@) == Some(v[i].1.repo())
    &&& forall|k: Seq<char>|
        m.contains_key(k) ==> exists|i: int| 0 <= i < v.len() && (#[trigger] v[i]).0@ == k
    &&& forall|i: int, j: int| 0 <= i < j < v.len() ==> v[i].0@ != v[j].0@
}

/// The table of upstream hosts, by host name.
#[verifier::external_body]
pub struct Hosts {
    inner: hashbrown::HashMap<String, HostRecord>,
}

/// What the table of hosts holds.
pub uninterp spec fn host_entries(t: Hosts) -> Map<Seq<char>, HostRecord>;

impl Hosts {
    /// `hashbrown::HashMap::new`: the empty table.
    #[verifier::external_body]
    pub(crate) fn new() -> (r: Hosts)
        ensures
            host_entries(r) == no_hosts(),
    {
        Hosts { inner: hashbrown::HashMap::new() }
    }

    /// `hashbrown::HashMap::get`: the record of `host`, if the table holds one.
    #[verifier::external_body]
    pub(crate) fn get(&self, host: &str) -> (r: Option<HostRecord>)
        ensures
            r == lookup(host_entries(*self), host@),
    {
        self.inner.get(host).copied()
    }

    /// `hashbrown::HashMap::insert`: records `record` for `host`, in place of what
    /// was recorded for it.
    #[verifier::external_body]
    pub(crate) fn insert(&mut self, host: String, record: HostRecord)
        ensures
            host_entries(*final(self)) == host_entries(*old(self)).insert(host@, record),
    {
        self.inner.insert(host, record);
    }

    /// `hashbrown::HashMap::iter`: every host with its record, each once, in the
    /// order in which the table is walked.
    #[verifier::external_body]
    pub(crate) fn records(&self) -> (r: Vec<(String, HostRecord)>)
        ensures
            lists_hosts(r@, host_entries(*self)),
    {
        self.inner.iter().map(|(host, record)| (host.clone(), *record)).collect()
    }
}

/// The table of repositories, by DID.
#[verifier::external_body]
pub struct Repos {
    inner: hashbrown::HashMap<String, RepoState>,
}

/// What the table of repositories holds.
pub uninterp spec fn repo_entries(t: Repos) -> Map<Seq<char>, Repo>;

impl Repos {
    /// `hashbrown::HashMap::new`: the empty table.
    #[verifier::external_body]
    pub(crate) fn new() -> (r: Repos)
        ensures
            repo_entries(r) == no_repos(),
    {
        Repos { inner: hashbrown::HashMap::new() }
    }

    /// `hashbrown::HashMap::get`: the state of the repository of `did`, if the table
    /// holds one.
    #[verifier::external_body]
    pub(crate) fn get(&self, did: &str) -> (r: Option<RepoState>)
        ensures
            repo_of(r) == lookup(repo_entries(*self), did@),
    {
        self.inner.get(did).cloned()
    }

    /// `hashbrown::HashMap::insert`: records `state` for the repository of `did`, in
    /// place of what was recorded for it.
    #[verifier::external_body]
    pub(crate) fn insert(&mut self, did: String, state: RepoState)
        ensures
            repo_entries(*final(self)) == repo_entries(*old(self)).insert(did@, state.repo()),
    {
        self.inner.insert(did, state);
    }

    /// `hashbrown::HashMap::iter`: every repository with its state, each once, in the
    /// order in which the table is walked.
    #[verifier::external_body]
    pub(crate) fn records(&self) -> (r: Vec<(String, RepoState)>)
        ensures
            lists_repos(r@, repo_entries(*self)),
    {
        self.inner.iter().map(|(did, state)| (did.clone(), state.clone())).collect()
    }
}

} // verus!
