//! From a DID document, or from a row of the ledger's mirror, to the binding of a DID.

use vstd::prelude::*;

use crate::cache::{bound_of, Binding, Bound, KEY_LEN};
use crate::text::{ends_with, strip_prefix, trim_end_matches, trim_start_matches, trimmed_end, trimmed_start};

verus! {

/// A key may be written as a DID of the `key` method.
pub const KEY_PREFIX: &'static str = "did:key:";

/// An endpoint is kept only where it is reached over TLS.
pub const HTTPS_PREFIX: &'static str = "https://";

/// The service of a document that names the account's data server ends in this.
pub const SERVICE_SUFFIX: &'static str = "#atproto_pds";

/// The verification method of a document that holds the signing key ends in this.
pub const METHOD_SUFFIX: &'static str = "#atproto";

/// For a relay of labels: the service of a document that names the labeler ends in
/// this.
pub const LABELER_SERVICE_SUFFIX: &'static str = "#atproto_labeler";

/// For a relay of labels: the verification method that holds the key for labels
/// ends in this.
pub const LABELER_METHOD_SUFFIX: &'static str = "#atproto_label";

/// How the service is marked that the relay reads its endpoint from.
pub open spec fn service_suffix(labeler: bool) -> Seq<char> {
    if labeler {
        LABELER_SERVICE_SUFFIX@
    } else {
        SERVICE_SUFFIX@
    }
}

/// How the verification method is marked that the relay reads its key from.
pub open spec fn method_suffix(labeler: bool) -> Seq<char> {
    if labeler {
        LABELER_METHOD_SUFFIX@
    } else {
        METHOD_SUFFIX@
    }
}

/// One service of a DID document.
#[derive(Clone, Debug)]
pub struct Service {
    pub id: String,
    pub service_endpoint: String,
}

/// One verification method of a DID document.
#[derive(Clone, Debug)]
pub struct VerificationMethod {
    pub id: String,
    pub public_key_multibase: Option<String>,
}

/// A DID document, as far as the relay reads it.
#[derive(Clone, Debug)]
pub struct DidDocument {
    pub id: String,
    pub service: Option<Vec<Service>>,
    pub verification_method: Option<Vec<VerificationMethod>>,
}

/// The bytes that a multibase string stands for, if it is one.
pub uninterp spec fn multibase_decoded(s: Seq<char>) -> Option<Seq<u8>>;

/// `multibase::decode`: the bytes that `s` stands for in the base that its first
/// character names, or nothing where `s` is no multibase string.
#[verifier::external_body]
fn multibase_decode(s: &str) -> (r: Option<Vec<u8>>)
    ensures
        r is Some == multibase_decoded(s@) is Some,
        r matches Some(bytes) ==> multibase_decoded(s@) == Some(bytes@),
{
    match multibase::decode(s) {
        Ok((_, bytes)) => Some(bytes),
        Err(_) => None,
    }
}

pub open spec fn chars_of_opt(s: Option<&str>) -> Option<Seq<char>> {
    match s {
        Some(s) => Some(s@),
        None => None,
    }
}

pub open spec fn bytes_of_opt(b: Option<Vec<u8>>) -> Option<Seq<u8>> {
    match b {
        Some(b) => Some(b@),
        None => None,
    }
}

/// The host of an endpoint: what follows `https://`, without trailing slashes.
pub open spec fn endpoint_host(endpoint: Option<Seq<char>>) -> Option<Seq<char>> {
    match endpoint {
        Some(e) => if HTTPS_PREFIX@.is_prefix_of(e) {
            Some(trimmed_end(e.skip(HTTPS_PREFIX@.len() as int), '/'))
        } else {
            None
        },
        None => None,
    }
}

/// The binding that an endpoint and the decoded key give: none unless the key was
/// decoded and has the length of a key.
pub open spec fn bound_from(endpoint: Option<Seq<char>>, decoded: Option<Seq<u8>>) -> Option<
    Bound,
> {
    match decoded {
        Some(bytes) => if bytes.len() == KEY_LEN {
            Some((endpoint_host(endpoint), bytes))
        } else {
            None
        },
        None => None,
    }
}

/// The binding that an endpoint and a written key give.
pub open spec fn key_endpoint(endpoint: Option<Seq<char>>, key: Option<Seq<char>>) -> Option<
    Bound,
> {
    match key {
        Some(k) => bound_from(endpoint, multibase_decoded(trimmed_start(k, KEY_PREFIX@))),
        None => None,
    }
}

/// The endpoint of the first service whose id ends in `suffix`.
pub open spec fn first_endpoint(services: Seq<Service>, suffix: Seq<char>) -> Option<Seq<char>>
    decreases services.len(),
{
    if services.len() == 0 {
        None
    } else if suffix.is_suffix_of(services[0].id@) {
        Some(services[0].service_endpoint@)
    } else {
        first_endpoint(services.drop_first(), suffix)
    }
}

/// The key of the first verification method whose id ends in `suffix`, if that
/// method holds one.
pub open spec fn first_key(methods: Seq<VerificationMethod>, suffix: Seq<char>) -> Option<
    Seq<char>,
>
    decreases methods.len(),
{
    if methods.len() == 0 {
        None
    } else if suffix.is_suffix_of(methods[0].id@) {
        match methods[0].public_key_multibase {
            Some(k) => Some(k@),
            None => None,
        }
    } else {
        first_key(methods.drop_first(), suffix)
    }
}

impl DidDocument {
    /// The endpoint of the account's data server, as the document writes it.
    pub open spec fn endpoint(self, labeler: bool) -> Option<Seq<char>> {
        match self.service {
            Some(services) => first_endpoint(services@, service_suffix(labeler)),
            None => None,
        }
    }

    /// The signing key, as the document writes it.
    pub open spec fn key(self, labeler: bool) -> Option<Seq<char>> {
        match self.verification_method {
            Some(methods) => first_key(methods@, method_suffix(labeler)),
            None => None,
        }
    }

    /// The binding that the document gives its DID.
    pub open spec fn bound(self, labeler: bool) -> Option<Bound> {
        key_endpoint(self.endpoint(labeler), self.key(labeler))
    }
}

/// Binds a decoded key to the host of an endpoint. There is no binding without a
/// key of `KEY_LEN` bytes; the endpoint is kept where it begins with `https://`.
pub fn bind_key_endpoint(endpoint: Option<&str>, decoded: Option<Vec<u8>>) -> (r: Option<Binding>)
    ensures
        bound_of(r) == bound_from(chars_of_opt(endpoint), bytes_of_opt(decoded)),
{
    let key = match decoded {
        Some(key) => key,
        None => {
            return None;
        },
    };
    if key.len() != KEY_LEN {
        return None;
    }
    let host = match endpoint {
        Some(e) => match strip_prefix(e, HTTPS_PREFIX) {
            Some(rest) => Some(trim_end_matches(rest, '/').to_owned()),
            None => None,
        },
        None => None,
    };
    Some(Binding { endpoint: host, key })
}

/// Reads a binding from an endpoint and a written key: the key without its leading
/// `did:key:` is decoded as multibase.
pub fn parse_key_endpoint(endpoint: Option<&str>, key: Option<&str>) -> (r: Option<Binding>)
    ensures
        bound_of(r) == key_endpoint(chars_of_opt(endpoint), chars_of_opt(key)),
{
    match key {
        Some(key) => {
            proof {
                reveal_strlit("did:key:");
            }
            let decoded = multibase_decode(trim_start_matches(key, KEY_PREFIX));
            bind_key_endpoint(endpoint, decoded)
        },
        None => None,
    }
}

fn find_endpoint<'a>(services: &'a Vec<Service>, suffix: &str) -> (r: Option<&'a str>)
    ensures
        chars_of_opt(r) == first_endpoint(services@, suffix@),
{
    let mut i: usize = 0;
    assert(services@.skip(0) =~= services@);
    while i < services.len()
        invariant
            i <= services.len(),
            first_endpoint(services@, suffix@) == first_endpoint(
                services@.skip(i as int),
                suffix@,
            ),
        decreases services.len() - i,
    {
        assert(services@.skip(i as int)[0] == services@[i as int]);
        if ends_with(services[i].id.as_str(), suffix) {
            return Some(services[i].service_endpoint.as_str());
        }
        assert(services@.skip(i as int).drop_first() =~= services@.skip(i + 1));
        i += 1;
    }
    None
}

fn find_key<'a>(methods: &'a Vec<VerificationMethod>, suffix: &str) -> (r: Option<&'a str>)
    ensures
        chars_of_opt(r) == first_key(methods@, suffix@),
{
    let mut i: usize = 0;
    assert(methods@.skip(0) =~= methods@);
    while i < methods.len()
        invariant
            i <= methods.len(),
            first_key(methods@, suffix@) == first_key(methods@.skip(i as int), suffix@),
        decreases methods.len() - i,
    {
        assert(methods@.skip(i as int)[0] == methods@[i as int]);
        if ends_with(methods[i].id.as_str(), suffix) {
            return match &methods[i].public_key_multibase {
                Some(k) => Some(k.as_str()),
                None => None,
            };
        }
        assert(methods@.skip(i as int).drop_first() =~= methods@.skip(i + 1));
        i += 1;
    }
    None
}

/// The columns of the mirror that hold the endpoint and the key that the relay reads.
pub fn mirror_columns(labeler: bool) -> (r: (&'static str, &'static str))
    ensures
        r == if labeler {
            ("labeler_endpoint", "labeler_key")
        } else {
            ("pds_endpoint", "pds_key")
        },
{
    if labeler {
        ("labeler_endpoint", "labeler_key")
    } else {
        ("pds_endpoint", "pds_key")
    }
}

/// Reads from a DID document the DID that it is about and the binding that it gives:
/// for a relay of labels the labeler's endpoint and key, else those of the account's
/// data server.
pub fn parse_did_doc(doc: &DidDocument, labeler: bool) -> (r: Option<(String, Binding)>)
    ensures
        r is Some == doc.bound(labeler) is Some,
        r matches Some((did, binding)) ==> did@ == doc.id@ && Some(binding.bound())
            == doc.bound(labeler),
{
    let endpoint = match &doc.service {
        Some(services) => find_endpoint(
            services,
            if labeler {
                LABELER_SERVICE_SUFFIX
            } else {
                SERVICE_SUFFIX
            },
        ),
        None => None,
    };
    let key = match &doc.verification_method {
        Some(methods) => find_key(
            methods,
            if labeler {
                LABELER_METHOD_SUFFIX
            } else {
                METHOD_SUFFIX
            },
        ),
        None => None,
    };
    match parse_key_endpoint(endpoint, key) {
        Some(binding) => Some((doc.id.clone(), binding)),
        None => None,
    }
}

} // verus!
