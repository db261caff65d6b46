//! The cache of resolved identities: a least-recently-used cache of the `lru` crate,
//! described by the sequence of its entries from the most recently used to the least.

use std::num::NonZeroUsize;
use vstd::prelude::*;

verus! {

/// Where an account lives and the key that signs for it.
#[derive(Clone, Debug)]
pub struct Binding {
    /// The host of the account's data server; absent in documents of the old form.
    pub endpoint: Option<String>,
    /// The account's public signing key.
    pub key: Vec<u8>,
}

/// A binding as plain values: the endpoint's characters and the key's bytes.
pub type Bound = (Option<Seq<char>>, Seq<u8>);

/// One cache entry as plain values: the DID and what it is bound to.
pub type Slot = (Seq<char>, Bound);

impl Binding {
    pub open spec fn bound(self) -> Bound {
        (
            match self.endpoint {
                Some(e) => Some(e@),
                None => None,
            },
            self.key@,
        )
    }
}

pub open spec fn bound_of(b: Option<Binding>) -> Option<Bound> {
    match b {
        Some(b) => Some(b.bound()),
        None => None,
    }
}

/// What the first entry for `k` holds.
pub open spec fn found(es: Seq<Slot>, k: Seq<char>) -> Option<Bound>
    decreases es.len(),
{
    if es.len() == 0 {
        None
    } else if es[0].0 == k {
        Some(es[0].1)
    } else {
        found(es.drop_first(), k)
    }
}

/// The entries without those for `k`, in the same order.
pub open spec fn without(es: Seq<Slot>, k: Seq<char>) -> Seq<Slot>
    decreases es.len(),
{
    if es.len() == 0 {
        es
    } else if es[0].0 == k {
        without(es.drop_first(), k)
    } else {
        seq![es[0]] + without(es.drop_first(), k)
    }
}

/// The entries after a read of `k`: its entry, if there is one, moves to the front.
pub open spec fn promoted(es: Seq<Slot>, k: Seq<char>) -> Seq<Slot> {
    match found(es, k) {
        Some(v) => seq![(k, v)] + without(es, k),
        None => es,
    }
}

/// The entries after `k` is bound to `v` in a cache of at most `limit` entries: the
/// new entry stands at the front; an old entry for `k` is replaced; otherwise, where
/// the cache is full, the entry at the back leaves.
pub open spec fn stored(es: Seq<Slot>, limit: nat, k: Seq<char>, v: Bound) -> Seq<Slot> {
    if found(es, k) is Some {
        seq![(k, v)] + without(es, k)
    } else if es.len() > 0 && es.len() >= limit {
        seq![(k, v)] + es.drop_last()
    } else {
        seq![(k, v)] + es
    }
}

/// The number of bytes of a public signing key.
pub const KEY_LEN: usize = 35;

/// Whether a binding holds a key of the length of a key.
pub open spec fn sized(b: Bound) -> bool {
    b.1.len() == KEY_LEN
}

/// Whether every entry holds a key of the length of a key.
pub open spec fn all_sized(es: Seq<Slot>) -> bool {
    forall|i: int| 0 <= i < es.len() ==> sized((#[trigger] es[i]).1)
}

proof fn lemma_found_sized(es: Seq<Slot>, k: Seq<char>)
    requires
        all_sized(es),
    ensures
        found(es, k) matches Some(b) ==> sized(b),
    decreases es.len(),
{
    if es.len() > 0 && es[0].0 != k {
        assert forall|i: int| 0 <= i < es.drop_first().len() implies sized(
            (#[trigger] es.drop_first()[i]).1,
        ) by {
            assert(es.drop_first()[i] == es[i + 1]);
        }
        lemma_found_sized(es.drop_first(), k);
    }
}

proof fn lemma_without_sized(es: Seq<Slot>, k: Seq<char>)
    requires
        all_sized(es),
    ensures
        all_sized(without(es, k)),
    decreases es.len(),
{
    if es.len() > 0 {
        let rest = es.drop_first();
        assert forall|i: int| 0 <= i < rest.len() implies sized((#[trigger] rest[i]).1) by {
            assert(rest[i] == es[i + 1]);
        }
        lemma_without_sized(rest, k);
        if es[0].0 != k {
            let kept = seq![es[0]] + without(rest, k);
            assert forall|i: int| 0 <= i < kept.len() implies sized((#[trigger] kept[i]).1) by {
                if i > 0 {
                    assert(kept[i] == without(rest, k)[i - 1]);
                }
            }
        }
    }
}

proof fn lemma_fronted_sized(k: Seq<char>, v: Bound, es: Seq<Slot>)
    requires
        all_sized(es),
        sized(v),
    ensures
        all_sized(seq![(k, v)] + es),
{
    let all = seq![(k, v)] + es;
    assert forall|i: int| 0 <= i < all.len() implies sized((#[trigger] all[i]).1) by {
        if i > 0 {
            assert(all[i] == es[i - 1]);
        }
    }
}

proof fn lemma_promoted_sized(es: Seq<Slot>, k: Seq<char>)
    requires
        all_sized(es),
    ensures
        all_sized(promoted(es, k)),
{
    lemma_found_sized(es, k);
    lemma_without_sized(es, k);
    if found(es, k) is Some {
        lemma_fronted_sized(k, found(es, k)->0, without(es, k));
    }
}

proof fn lemma_stored_sized(es: Seq<Slot>, limit: nat, k: Seq<char>, v: Bound)
    requires
        all_sized(es),
        sized(v),
    ensures
        all_sized(stored(es, limit, k, v)),
{
    lemma_without_sized(es, k);
    lemma_fronted_sized(k, v, without(es, k));
    lemma_fronted_sized(k, v, es);
    if es.len() > 0 {
        assert forall|i: int| 0 <= i < es.drop_last().len() implies sized(
            (#[trigger] es.drop_last()[i]).1,
        ) by {
            assert(es.drop_last()[i] == es[i]);
        }
        lemma_fronted_sized(k, v, es.drop_last());
    }
}

#[verifier::external_type_specification]
#[verifier::external_body]
#[verifier::reject_recursive_types(K)]
#[verifier::reject_recursive_types(V)]
#[verifier::reject_recursive_types(S)]
pub struct ExLruCache<K, V, S>(lru::LruCache<K, V, S>);

#[verifier::external_type_specification]
#[verifier::external_body]
pub struct ExDefaultHashBuilder(hashbrown::DefaultHashBuilder);

/// The entries of the cache, from the most recently used to the least.
pub uninterp spec fn cache_entries(c: lru::LruCache<String, (Option<String>, Vec<u8>)>) -> Seq<
    Slot,
>;

/// The number of entries that the cache was made to hold.
pub uninterp spec fn cache_limit(c: lru::LruCache<String, (Option<String>, Vec<u8>)>) -> nat;

/// The cache of resolved identities. Every key in it has the length of a key.
pub struct Cache {
    inner: lru::LruCache<String, (Option<String>, Vec<u8>)>,
}

impl Cache {
    #[verifier::type_invariant]
    spec fn keys_sized(self) -> bool {
        all_sized(cache_entries(self.inner))
    }
}

/// `lru::LruCache::sparse`: an empty cache that holds at most `limit` entries; room
/// for them is taken as they come, so that any limit can be asked for.
#[verifier::external_body]
fn cache_new(limit: usize) -> (c: lru::LruCache<String, (Option<String>, Vec<u8>)>)
    requires
        limit > 0,
    ensures
        cache_entries(c) == Seq::<Slot>::empty(),
        cache_limit(c) == limit,
{
    lru::LruCache::sparse(NonZeroUsize::new(limit).unwrap())
}

/// `lru::LruCache::get`: returns what `did` is bound to and moves its entry to the
/// front; without an entry for `did` the cache stays as it is. It does not panic.
#[verifier::external_body]
fn cache_get(c: &mut lru::LruCache<String, (Option<String>, Vec<u8>)>, did: &str) -> (r: Option<
    Binding,
>)
    ensures
        bound_of(r) == found(cache_entries(*old(c)), did@),
        cache_entries(*final(c)) == promoted(cache_entries(*old(c)), did@),
        cache_limit(*final(c)) == cache_limit(*old(c)),
    no_unwind
{
    c.get(did).map(|v| Binding { endpoint: v.0.clone(), key: v.1.clone() })
}

/// `lru::LruCache::peek`: returns what `did` is bound to; the order of the entries
/// stays as it is.
#[verifier::external_body]
fn cache_peek(c: &lru::LruCache<String, (Option<String>, Vec<u8>)>, did: &str) -> (r: Option<
    Binding,
>)
    ensures
        bound_of(r) == found(cache_entries(*c), did@),
{
    c.peek(did).map(|v| Binding { endpoint: v.0.clone(), key: v.1.clone() })
}

/// `lru::LruCache::put`: binds `did` to `binding` at the front of the cache, in place
/// of an old entry for `did` or, where the cache is full, of the entry at the back.
/// It does not panic.
#[verifier::external_body]
fn cache_put(
    c: &mut lru::LruCache<String, (Option<String>, Vec<u8>)>,
    did: String,
    binding: Binding,
)
    ensures
        cache_entries(*final(c)) == stored(
            cache_entries(*old(c)),
            cache_limit(*old(c)),
            did@,
            binding.bound(),
        ),
        cache_limit(*final(c)) == cache_limit(*old(c)),
    no_unwind
{
    c.put(did, (binding.endpoint, binding.key));
}

/// `lru::LruCache::pop`: removes the entry for `did`; the others keep their order.
/// It does not panic.
#[verifier::external_body]
fn cache_pop(c: &mut lru::LruCache<String, (Option<String>, Vec<u8>)>, did: &str)
    ensures
        cache_entries(*final(c)) == without(cache_entries(*old(c)), did@),
        cache_limit(*final(c)) == cache_limit(*old(c)),
    no_unwind
{
    c.pop(did);
}

impl Cache {
    /// The entries, from the most recently used to the least.
    pub closed spec fn entries(self) -> Seq<Slot> {
        cache_entries(self.inner)
    }

    /// The number of entries that the cache holds at most.
    pub closed spec fn limit(self) -> nat {
        cache_limit(self.inner)
    }

    /// An empty cache that holds at most `limit` entries.
    pub(crate) fn new(limit: usize) -> (r: Cache)
        requires
            limit > 0,
        ensures
            r.entries() == Seq::<Slot>::empty(),
            r.limit() == limit,
    {
        Cache { inner: cache_new(limit) }
    }

    /// What `did` is bound to; its entry moves to the front.
    pub(crate) fn get(&mut self, did: &str) -> (r: Option<Binding>)
        ensures
            bound_of(r) == found(old(self).entries(), did@),
            r matches Some(b) ==> sized(b.bound()),
            final(self).entries() == promoted(old(self).entries(), did@),
            final(self).limit() == old(self).limit(),
    {
        proof {
            use_type_invariant(&*self);
            lemma_found_sized(cache_entries(self.inner), did@);
            lemma_promoted_sized(cache_entries(self.inner), did@);
        }
        cache_get(&mut self.inner, did)
    }

    /// What `did` is bound to; the cache stays as it is.
    pub(crate) fn peek(&self, did: &str) -> (r: Option<Binding>)
        ensures
            bound_of(r) == found(self.entries(), did@),
            r matches Some(b) ==> sized(b.bound()),
    {
        proof {
            use_type_invariant(self);
            lemma_found_sized(cache_entries(self.inner), did@);
        }
        cache_peek(&self.inner, did)
    }

    /// Binds `did` to `binding`, whose key has the length of a key.
    pub(crate) fn put(&mut self, did: String, binding: Binding)
        requires
            sized(binding.bound()),
        ensures
            final(self).entries() == stored(
                old(self).entries(),
                old(self).limit(),
                did@,
                binding.bound(),
            ),
            final(self).limit() == old(self).limit(),
    {
        proof {
            use_type_invariant(&*self);
            lemma_stored_sized(
                cache_entries(self.inner),
                cache_limit(self.inner),
                did@,
                binding.bound(),
            );
        }
        cache_put(&mut self.inner, did, binding);
    }

    /// Removes the entry for `did`.
    pub(crate) fn pop(&mut self, did: &str)
        ensures
            final(self).entries() == without(old(self).entries(), did@),
            final(self).limit() == old(self).limit(),
    {
        proof {
            use_type_invariant(&*self);
            lemma_without_sized(cache_entries(self.inner), did@);
        }
        cache_pop(&mut self.inner, did);
    }
}

} // verus!
