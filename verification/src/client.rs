//! Client authentication: from the value of an `Authorization` header to the
//! identity of the client that holds the API key in it.

use vstd::prelude::*;
use vstd::slice::slice_subrange;
use vstd::slice::slice_to_vec;
use crate::encoding::bytes_equal;

verus! {

/// The identity of a client (a tenant): an opaque integer.
#[derive(Clone, Copy, Debug, PartialEq, Eq, Structural)]
pub struct ClientIdentity(pub i64);

/// Why a request was not resolved to a client.
#[derive(Clone, Copy, Debug, PartialEq, Eq, Structural)]
pub enum CredentialError {
    /// No credential, or one that no client holds.
    Unauthenticated,
    /// A credential that does not follow the `Bearer` scheme.
    MalformedCredential,
    /// The store of clients failed: a fault on the server's side.
    StoreUnavailable,
}

/// A failure of the store to answer, as distinct from the answer that there
/// is no such entry.
#[derive(Clone, Copy, Debug, PartialEq, Eq, Structural)]
pub struct StoreFault;

/// The HTTP status that answers each error.
pub open spec fn credential_status(error: CredentialError) -> u16 {
    match error {
        CredentialError::Unauthenticated => 401u16,
        CredentialError::MalformedCredential => 400u16,
        CredentialError::StoreUnavailable => 500u16,
    }
}

impl CredentialError {
    /// The HTTP status that answers the request: 401, 400 or, for a fault of
    /// the store, 500.
    pub fn status_code(&self) -> (code: u16)
        ensures
            code == credential_status(*self),
    {
        match self {
            CredentialError::Unauthenticated => 401,
            CredentialError::MalformedCredential => 400,
            CredentialError::StoreUnavailable => 500,
        }
    }
}

/// The scheme that a credential starts with: the bytes of `Bearer` and a space.
pub open spec fn bearer_prefix() -> Seq<u8> {
    seq![0x42u8, 0x65u8, 0x61u8, 0x72u8, 0x65u8, 0x72u8, 0x20u8]
}

/// Whether a header value starts with the `Bearer` scheme.
pub open spec fn has_bearer_prefix(header: Seq<u8>) -> bool {
    header.len() >= 7 && header.take(7) == bearer_prefix()
}

/// What a header value yields: the API key in it, or the reason why there is
/// none. The key is all that follows the scheme, byte for byte.
pub open spec fn credential_of(header: Option<Seq<u8>>) -> Result<Seq<u8>, CredentialError> {
    match header {
        None => Err(CredentialError::Unauthenticated),
        Some(h) => if has_bearer_prefix(h) {
            Ok(h.skip(7))
        } else {
            Err(CredentialError::MalformedCredential)
        },
    }
}

/// The view of an optional header value.
pub open spec fn header_view(header: Option<&[u8]>) -> Option<Seq<u8>> {
    match header {
        None => None,
        Some(h) => Some(h@),
    }
}

/// Takes the API key out of the value of an `Authorization` header.
///
/// A request without the header is unauthenticated. A value that does not
/// start with `Bearer` and a space is malformed, whatever bytes it holds.
/// Otherwise the key is the rest of the value, unchanged.
pub fn bearer_token(header: Option<&[u8]>) -> (result: Result<Vec<u8>, CredentialError>)
    ensures
        match result {
            Ok(key) => credential_of(header_view(header)) == Ok::<Seq<u8>, CredentialError>(key@),
            Err(e) => credential_of(header_view(header)) == Err::<Seq<u8>, CredentialError>(e),
        },
{
    let h = match header {
        Some(h) => h,
        None => { return Err(CredentialError::Unauthenticated); },
    };
    if h.len() < 7 {
        return Err(CredentialError::MalformedCredential);
    }
    if !(h[0] == 0x42 && h[1] == 0x65 && h[2] == 0x61 && h[3] == 0x72 && h[4] == 0x65 && h[5]
        == 0x72 && h[6] == 0x20) {
        proof {
            let t = h@.take(7);
            if t == bearer_prefix() {
                assert(t[0] == h@[0] && t[1] == h@[1] && t[2] == h@[2] && t[3] == h@[3]);
                assert(t[4] == h@[4] && t[5] == h@[5] && t[6] == h@[6]);
            }
        }
        return Err(CredentialError::MalformedCredential);
    }
    assert(h@.take(7) =~= bearer_prefix());
    assert(h@.skip(7) =~= h@.subrange(7, h@.len() as int));
    Ok(slice_to_vec(slice_subrange(h, 7, h.len())))
}

/// One line of the directory: an API key and the client that holds it.
pub struct ClientEntry {
    pub api_key: Seq<u8>,
    pub client: ClientIdentity,
}

/// The client that holds the key, if the lines name one: the first that does.
pub open spec fn resolve(entries: Seq<ClientEntry>, api_key: Seq<u8>) -> Option<ClientIdentity>
    decreases entries.len(),
{
    if entries.len() == 0 {
        None
    } else {
        match resolve(entries.drop_last(), api_key) {
            Some(client) => Some(client),
            None => if entries.last().api_key == api_key {
                Some(entries.last().client)
            } else {
                None
            },
        }
    }
}

/// Whether a line holds the key or the client.
pub open spec fn enrolled(entries: Seq<ClientEntry>, api_key: Seq<u8>, client: ClientIdentity) -> bool {
    exists|i: int| 0 <= i < entries.len() && holds(#[trigger] entries[i], api_key, client)
}

/// Whether the line holds the key or the client.
pub open spec fn holds(entry: ClientEntry, api_key: Seq<u8>, client: ClientIdentity) -> bool {
    entry.api_key == api_key || entry.client == client
}

/// Whether keys and clients correspond one to one: no two lines share a key,
/// and no two share a client.
pub open spec fn one_to_one(entries: Seq<ClientEntry>) -> bool {
    forall|i: int, j: int|
        0 <= i < j < entries.len() ==> (#[trigger] entries[i]).api_key != (
        #[trigger] entries[j]).api_key && entries[i].client != entries[j].client
}

/// What a request resolves to: its client, or the reason why it has none. A
/// key that no client holds is answered like a missing credential.
pub open spec fn authentication(entries: Seq<ClientEntry>, header: Option<Seq<u8>>) -> Result<
    ClientIdentity,
    CredentialError,
> {
    match credential_of(header) {
        Err(e) => Err(e),
        Ok(api_key) => match resolve(entries, api_key) {
            Some(client) => Ok(client),
            None => Err(CredentialError::Unauthenticated),
        },
    }
}

/// What the store answered for a key stands for the request: the client it
/// found, no client, or a fault. A fault is not taken for an unknown key.
pub open spec fn lookup_outcome(answer: Result<Option<i64>, StoreFault>) -> Result<
    ClientIdentity,
    CredentialError,
> {
    match answer {
        Ok(Some(id)) => Ok(ClientIdentity(id)),
        Ok(None) => Err(CredentialError::Unauthenticated),
        Err(_) => Err(CredentialError::StoreUnavailable),
    }
}

/// Turns the answer of the store for a key into the outcome of the request.
pub fn client_from_lookup(answer: Result<Option<i64>, StoreFault>) -> (result: Result<
    ClientIdentity,
    CredentialError,
>)
    ensures
        result == lookup_outcome(answer),
{
    match answer {
        Ok(Some(id)) => Ok(ClientIdentity(id)),
        Ok(None) => Err(CredentialError::Unauthenticated),
        Err(_) => Err(CredentialError::StoreUnavailable),
    }
}

struct Enrolled {
    api_key: Vec<u8>,
    client: ClientIdentity,
}

/// The directory of clients: which API key belongs to which client.
pub struct ClientDirectory {
    entries: Vec<Enrolled>,
}

impl View for ClientDirectory {
    type V = Seq<ClientEntry>;

    closed spec fn view(&self) -> Seq<ClientEntry> {
        Seq::new(
            self.entries@.len(),
            |i: int| ClientEntry { api_key: self.entries@[i].api_key@, client: self.entries@[i].client },
        )
    }
}

impl ClientDirectory {
    #[verifier::type_invariant]
    spec fn well_formed(&self) -> bool {
        one_to_one(self@)
    }

    /// A directory without clients.
    pub fn new() -> (directory: ClientDirectory)
        ensures
            directory@.len() == 0,
    {
        ClientDirectory { entries: Vec::new() }
    }

    /// The number of clients.
    pub fn len(&self) -> (n: usize)
        ensures
            n == self@.len(),
            one_to_one(self@),
    {
        proof {
            use_type_invariant(self);
        }
        self.entries.len()
    }

    /// Enrolls a client with its API key, unless the key or the client is
    /// enrolled already: then the directory stays as it is.
    pub fn enroll(&mut self, api_key: &[u8], client: ClientIdentity) -> (added: bool)
        ensures
            added == !enrolled(old(self)@, api_key@, client),
            added ==> final(self)@ == old(self)@.push(ClientEntry { api_key: api_key@, client }),
            !added ==> final(self)@ == old(self)@,
    {
        proof {
            use_type_invariant(&*self);
        }
        let mut i: usize = 0;
        while i < self.entries.len()
            invariant
                i <= self.entries@.len(),
                *self == *old(self),
                forall|j: int| 0 <= j < i ==> !holds(#[trigger] self@[j], api_key@, client),
            decreases self.entries@.len() - i,
        {
            let same_key = bytes_equal(self.entries[i].api_key.as_slice(), api_key);
            if same_key || self.entries[i].client.0 == client.0 {
                assert(holds(self@[i as int], api_key@, client));
                return false;
            }
            i += 1;
        }
        let ghost before = self@;
        let mut taken = ClientDirectory { entries: Vec::new() };
        core::mem::swap(self, &mut taken);
        let mut entries = taken.entries;
        entries.push(Enrolled { api_key: slice_to_vec(api_key), client });
        proof {
            let after = Seq::new(
                entries@.len(),
                |i: int| ClientEntry { api_key: entries@[i].api_key@, client: entries@[i].client },
            );
            assert(after =~= before.push(ClientEntry { api_key: api_key@, client }));
            assert forall|i: int, j: int| 0 <= i < j < after.len() implies (#[trigger] after[i]).api_key
                != (#[trigger] after[j]).api_key && after[i].client != after[j].client by {
                if j < before.len() {
                    assert(after[i] == before[i] && after[j] == before[j]);
                } else {
                    assert(after[i] == before[i]);
                    assert(!holds(before[i], api_key@, client));
                }
            }
        }
        let grown = ClientDirectory { entries };
        assert(grown@ =~= before.push(ClientEntry { api_key: api_key@, client }));
        *self = grown;
        true
    }

    /// The client that holds the key. Every line is compared in full, whether
    /// or not an earlier one matched.
    pub fn find(&self, api_key: &[u8]) -> (found: Option<ClientIdentity>)
        ensures
            found == resolve(self@, api_key@),
    {
        let mut found: Option<ClientIdentity> = None;
        let mut i: usize = 0;
        while i < self.entries.len()
            invariant
                i <= self.entries@.len(),
                found == resolve(self@.take(i as int), api_key@),
            decreases self.entries@.len() - i,
        {
            let same_key = bytes_equal(self.entries[i].api_key.as_slice(), api_key);
            proof {
                assert(self@.take(i as int + 1).drop_last() =~= self@.take(i as int));
                assert(self@.take(i as int + 1).last() == self@[i as int]);
            }
            if same_key && found.is_none() {
                found = Some(self.entries[i].client);
            }
            i += 1;
        }
        proof {
            assert(self@.take(self@.len() as int) =~= self@);
        }
        found
    }

    /// Resolves a request to its client from the value of its `Authorization`
    /// header. The identity comes from the directory alone.
    pub fn authenticate(&self, header: Option<&[u8]>) -> (result: Result<ClientIdentity, CredentialError>)
        ensures
            result == authentication(self@, header_view(header)),
    {
        match bearer_token(header) {
            Err(e) => Err(e),
            Ok(api_key) => match self.find(api_key.as_slice()) {
                Some(client) => Ok(client),
                None => Err(CredentialError::Unauthenticated),
            },
        }
    }
}

/// A key resolves to the client of the line that holds it, and to none where
/// no line does.
pub proof fn lemma_resolve(entries: Seq<ClientEntry>, api_key: Seq<u8>)
    requires
        one_to_one(entries),
    ensures
        match resolve(entries, api_key) {
            Some(client) => exists|i: int|
                0 <= i < entries.len() && (#[trigger] entries[i]).api_key == api_key && entries[i].client
                    == client,
            None => forall|i: int| 0 <= i < entries.len() ==> (#[trigger] entries[i]).api_key != api_key,
        },
        forall|i: int|
            0 <= i < entries.len() && (#[trigger] entries[i]).api_key == api_key ==> resolve(
                entries,
                api_key,
            ) == Some(entries[i].client),
    decreases entries.len(),
{
    if entries.len() > 0 {
        let front = entries.drop_last();
        assert forall|i: int, j: int| 0 <= i < j < front.len() implies (#[trigger] front[i]).api_key != (
        #[trigger] front[j]).api_key && front[i].client != front[j].client by {
            assert(front[i] == entries[i] && front[j] == entries[j]);
        }
        lemma_resolve(front, api_key);
        let last = entries.len() - 1;
        match resolve(front, api_key) {
            Some(client) => {
                let at = choose|i: int|
                    0 <= i < front.len() && (#[trigger] front[i]).api_key == api_key && front[i].client
                        == client;
                assert(entries[at] == front[at]);
                assert(entries[at].api_key != entries[last].api_key);
            },
            None => {
                assert forall|i: int| 0 <= i < front.len() implies (#[trigger] entries[i]).api_key
                    != api_key by {
                    assert(entries[i] == front[i]);
                }
            },
        }
        assert forall|i: int| 0 <= i < entries.len() && (#[trigger] entries[i]).api_key
            == api_key implies resolve(entries, api_key) == Some(entries[i].client) by {
            if i < front.len() {
                assert(front[i] == entries[i]);
            }
        }
    }
}

/// The boundary of client authentication. A request without the header is
/// unauthenticated. A header without the scheme is malformed. A header with
/// the scheme resolves to the client whose key is, byte for byte, what
/// follows the scheme, and is unauthenticated where no client has that key.
pub proof fn law_authentication_boundary(entries: Seq<ClientEntry>, header: Seq<u8>)
    requires
        one_to_one(entries),
    ensures
        authentication(entries, None) == Err::<ClientIdentity, CredentialError>(
            CredentialError::Unauthenticated,
        ),
        !has_bearer_prefix(header) ==> authentication(entries, Some(header)) == Err::<
            ClientIdentity,
            CredentialError,
        >(CredentialError::MalformedCredential),
        has_bearer_prefix(header) ==> forall|i: int|
            0 <= i < entries.len() && (#[trigger] entries[i]).api_key == header.skip(7)
                ==> authentication(entries, Some(header)) == Ok::<ClientIdentity, CredentialError>(
                entries[i].client,
            ),
        has_bearer_prefix(header) && (forall|i: int|
            0 <= i < entries.len() ==> (#[trigger] entries[i]).api_key != header.skip(7))
            ==> authentication(entries, Some(header)) == Err::<ClientIdentity, CredentialError>(
            CredentialError::Unauthenticated,
        ),
{
    if has_bearer_prefix(header) {
        lemma_resolve(entries, header.skip(7));
    }
}

} // verus!
