//! The registry of users: each account belongs to one client and holds one
//! public key, found by the client and by a username or an email.

use vstd::prelude::*;
use vstd::slice::slice_to_vec;
use crate::client::ClientIdentity;
use crate::curve::is_point_encoding;
use crate::schnorr::PublicKey;

verus! {

/// The identity of a user account: an opaque integer.
#[derive(Clone, Copy, Debug, PartialEq, Eq, Structural)]
pub struct UserId(pub u64);

/// What a login names its account by.
#[derive(Debug)]
pub enum Identifier {
    Username(String),
    Email(String),
}

/// An identifier as a value.
pub enum IdentifierView {
    Username(Seq<char>),
    Email(Seq<char>),
}

impl View for Identifier {
    type V = IdentifierView;

    open spec fn view(&self) -> IdentifierView {
        match *self {
            Identifier::Username(name) => IdentifierView::Username(name@),
            Identifier::Email(email) => IdentifierView::Email(email@),
        }
    }
}

/// The identifier that a request gives, from its two optional fields.
pub open spec fn chosen_identifier(username: Option<Seq<char>>, email: Option<Seq<char>>) -> Option<
    IdentifierView,
> {
    match username {
        Some(name) => Some(IdentifierView::Username(name)),
        None => match email {
            Some(email) => Some(IdentifierView::Email(email)),
            None => None,
        },
    }
}

/// The view of an optional string.
pub open spec fn text_view(text: Option<String>) -> Option<Seq<char>> {
    match text {
        Some(t) => Some(t@),
        None => None,
    }
}

impl Identifier {
    /// Chooses the identifier of a request. The username goes before the
    /// email where both are given; with neither there is none.
    pub fn select(username: Option<String>, email: Option<String>) -> (chosen: Option<Identifier>)
        ensures
            match chosen {
                Some(identifier) => chosen_identifier(text_view(username), text_view(email))
                    == Some(identifier@),
                None => username.is_none() && email.is_none(),
            },
    {
        match username {
            Some(name) => Some(Identifier::Username(name)),
            None => match email {
                Some(email) => Some(Identifier::Email(email)),
                None => None,
            },
        }
    }
}

/// An account as a value.
pub struct AccountView {
    pub client: ClientIdentity,
    pub username: Seq<char>,
    pub email: Seq<char>,
    pub public_key: Seq<u8>,
}

/// Whether the account belongs to the client and carries the identifier.
pub open spec fn identifies(account: AccountView, client: ClientIdentity, identifier: IdentifierView) -> bool {
    account.client == client && match identifier {
        IdentifierView::Username(name) => account.username == name,
        IdentifierView::Email(email) => account.email == email,
    }
}

/// The position of the first account that the client and the identifier name.
pub open spec fn position(accounts: Seq<AccountView>, client: ClientIdentity, identifier: IdentifierView) -> Option<int>
    decreases accounts.len(),
{
    if accounts.len() == 0 {
        None
    } else {
        match position(accounts.drop_last(), client, identifier) {
            Some(at) => Some(at),
            None => if identifies(accounts.last(), client, identifier) {
                Some(accounts.len() - 1)
            } else {
                None
            },
        }
    }
}

/// Why a lookup gave no public key.
#[derive(Clone, Copy, Debug, PartialEq, Eq, Structural)]
pub enum LookupError {
    /// The client has no account with this identifier.
    AccountNotFound,
    /// The account's stored key does not decode to a point on the curve.
    CorruptKeyRecord,
}

/// What a lookup gives: the account's position and its key, or the reason
/// why there is none.
pub open spec fn lookup_result(accounts: Seq<AccountView>, client: ClientIdentity, identifier: IdentifierView) -> Result<
    (int, Seq<u8>),
    LookupError,
> {
    match position(accounts, client, identifier) {
        None => Err(LookupError::AccountNotFound),
        Some(at) => if is_point_encoding(accounts[at].public_key) {
            Ok((at, accounts[at].public_key))
        } else {
            Err(LookupError::CorruptKeyRecord)
        },
    }
}

/// Whether an account of the client has the username or the email.
pub open spec fn taken(accounts: Seq<AccountView>, client: ClientIdentity, username: Seq<char>, email: Seq<char>) -> bool {
    exists|i: int| 0 <= i < accounts.len() && clashes(#[trigger] accounts[i], client, username, email)
}

/// Whether the account belongs to the client and has the username or the email.
pub open spec fn clashes(account: AccountView, client: ClientIdentity, username: Seq<char>, email: Seq<char>) -> bool {
    account.client == client && (account.username == username || account.email == email)
}

/// Whether usernames and emails are unique within each client.
pub open spec fn client_scoped(accounts: Seq<AccountView>) -> bool {
    forall|i: int, j: int|
        0 <= i < j < accounts.len() ==> !clashes(
            #[trigger] accounts[i],
            (#[trigger] accounts[j]).client,
            accounts[j].username,
            accounts[j].email,
        )
}

struct Stored {
    client: ClientIdentity,
    username: String,
    email: String,
    public_key: Vec<u8>,
}

impl Stored {
    spec fn model(&self) -> AccountView {
        AccountView {
            client: self.client,
            username: self.username@,
            email: self.email@,
            public_key: self.public_key@,
        }
    }
}

/// The accounts of all clients.
pub struct KeyRegistry {
    accounts: Vec<Stored>,
}

impl View for KeyRegistry {
    type V = Seq<AccountView>;

    closed spec fn view(&self) -> Seq<AccountView> {
        Seq::new(self.accounts@.len(), |i: int| self.accounts@[i].model())
    }
}

impl KeyRegistry {
    #[verifier::type_invariant]
    spec fn well_formed(&self) -> bool {
        client_scoped(self@)
    }

    /// A registry without accounts.
    pub fn new() -> (registry: KeyRegistry)
        ensures
            registry@.len() == 0,
    {
        KeyRegistry { accounts: Vec::new() }
    }

    /// The number of accounts.
    pub fn len(&self) -> (n: usize)
        ensures
            n == self@.len(),
            client_scoped(self@),
    {
        proof {
            use_type_invariant(self);
        }
        self.accounts.len()
    }

    /// Registers an account under a client and gives its identity, which is
    /// its position. The key is stored as it is given. Where the client has
    /// an account with this username or this email already, nothing changes.
    pub fn register(&mut self, client: ClientIdentity, username: &str, email: &str, public_key: &[u8]) -> (id: Option<UserId>)
        ensures
            id.is_some() <==> !taken(old(self)@, client, username@, email@),
            id matches Some(user) ==> user.0 == old(self)@.len() && final(self)@ == old(self)@.push(
                AccountView { client, username: username@, email: email@, public_key: public_key@ },
            ),
            id.is_none() ==> final(self)@ == old(self)@,
    {
        proof {
            use_type_invariant(&*self);
        }
        let name: String = username.to_owned();
        let mail: String = email.to_owned();
        let mut i: usize = 0;
        while i < self.accounts.len()
            invariant
                i <= self.accounts@.len(),
                *self == *old(self),
                name@ == username@,
                mail@ == email@,
                forall|j: int| 0 <= j < i ==> !clashes(#[trigger] self@[j], client, username@, email@),
            decreases self.accounts@.len() - i,
        {
            let account = &self.accounts[i];
            if account.client.0 == client.0 && (account.username == name || account.email == mail) {
                assert(clashes(self@[i as int], client, username@, email@));
                return None;
            }
            i += 1;
        }
        let ghost before = self@;
        let ghost added = AccountView { client, username: username@, email: email@, public_key: public_key@ };
        let mut taken_out = KeyRegistry { accounts: Vec::new() };
        core::mem::swap(self, &mut taken_out);
        let mut accounts = taken_out.accounts;
        let at: usize = accounts.len();
        accounts.push(
            Stored {
                client,
                username: name,
                email: mail,
                public_key: slice_to_vec(public_key),
            },
        );
        proof {
            let after = Seq::new(accounts@.len(), |i: int| accounts@[i].model());
            assert(after =~= before.push(added));
            assert forall|i: int, j: int| 0 <= i < j < after.len() implies !clashes(
                #[trigger] after[i],
                (#[trigger] after[j]).client,
                after[j].username,
                after[j].email,
            ) by {
                if j < before.len() {
                    assert(after[i] == before[i] && after[j] == before[j]);
                } else {
                    assert(after[i] == before[i]);
                }
            }
        }
        let grown = KeyRegistry { accounts };
        assert(grown@ =~= before.push(added));
        *self = grown;
        Some(UserId(at as u64))
    }

    /// Finds the account that the identifier names within the client, and
    /// gives its identity and its key as it is stored. Accounts of other
    /// clients are never considered.
    pub fn find_record(&self, client: ClientIdentity, identifier: &Identifier) -> (found: Option<(UserId, &[u8])>)
        ensures
            match found {
                Some((user, key)) => position(self@, client, identifier@) == Some(user.0 as int)
                    && user.0 < self@.len() && key@ == self@[user.0 as int].public_key,
                None => position(self@, client, identifier@).is_none(),
            },
    {
        let mut at: Option<usize> = None;
        let mut i: usize = 0;
        while i < self.accounts.len()
            invariant
                i <= self.accounts@.len(),
                match at {
                    Some(p) => position(self@.take(i as int), client, identifier@) == Some(p as int)
                        && p < i,
                    None => position(self@.take(i as int), client, identifier@).is_none(),
                },
            decreases self.accounts@.len() - i,
        {
            let account = &self.accounts[i];
            let named = match identifier {
                Identifier::Username(name) => account.username == *name,
                Identifier::Email(email) => account.email == *email,
            };
            proof {
                assert(self@.take(i as int + 1).drop_last() =~= self@.take(i as int));
                assert(self@.take(i as int + 1).last() == self@[i as int]);
            }
            if at.is_none() && account.client.0 == client.0 && named {
                at = Some(i);
            }
            i += 1;
        }
        proof {
            assert(self@.take(self@.len() as int) =~= self@);
        }
        match at {
            None => None,
            Some(p) => Some((UserId(p as u64), self.accounts[p].public_key.as_slice())),
        }
    }

    /// Finds the public key of the account that the identifier names within
    /// the client.
    pub fn lookup(&self, client: ClientIdentity, identifier: &Identifier) -> (found: Result<(UserId, PublicKey), LookupError>)
        ensures
            match found {
                Ok((user, key)) => lookup_result(self@, client, identifier@) == Ok::<
                    (int, Seq<u8>),
                    LookupError,
                >((user.0 as int, key@)),
                Err(e) => lookup_result(self@, client, identifier@) == Err::<(int, Seq<u8>), LookupError>(e),
            },
    {
        match self.find_record(client, identifier) {
            None => Err(LookupError::AccountNotFound),
            Some((user, stored)) => match PublicKey::from_bytes(stored) {
                Some(key) => Ok((user, key)),
                None => Err(LookupError::CorruptKeyRecord),
            },
        }
    }
}

/// The position that a search gives is that of the first account that the
/// client and the identifier name; it gives none exactly when there is none.
pub proof fn lemma_position_is_first(accounts: Seq<AccountView>, client: ClientIdentity, identifier: IdentifierView)
    ensures
        match position(accounts, client, identifier) {
            Some(at) => 0 <= at < accounts.len() && identifies(accounts[at], client, identifier)
                && forall|j: int| 0 <= j < at ==> !identifies(#[trigger] accounts[j], client, identifier),
            None => forall|j: int|
                0 <= j < accounts.len() ==> !identifies(#[trigger] accounts[j], client, identifier),
        },
    decreases accounts.len(),
{
    if accounts.len() > 0 {
        let front = accounts.drop_last();
        lemma_position_is_first(front, client, identifier);
        match position(front, client, identifier) {
            Some(at) => {
                assert(front[at] == accounts[at]);
                assert forall|j: int| 0 <= j < at implies !identifies(
                    #[trigger] accounts[j],
                    client,
                    identifier,
                ) by {
                    assert(front[j] == accounts[j]);
                }
            },
            None => {
                assert forall|j: int| 0 <= j < front.len() implies !identifies(
                    #[trigger] accounts[j],
                    client,
                    identifier,
                ) by {
                    assert(front[j] == accounts[j]);
                }
            },
        }
    }
}

/// Tenant isolation. A lookup resolves only to an account of the client it
/// was made for, and gives that account's key; a client without an account
/// that carries the identifier finds nothing, whatever other clients hold.
pub proof fn law_tenant_isolation(accounts: Seq<AccountView>, client: ClientIdentity, identifier: IdentifierView)
    ensures
        lookup_result(accounts, client, identifier) matches Ok((at, key)) ==> 0 <= at < accounts.len()
            && accounts[at].client == client && key == accounts[at].public_key,
        (forall|i: int|
            0 <= i < accounts.len() && (#[trigger] accounts[i]).client == client ==> !identifies(
                accounts[i],
                client,
                identifier,
            )) ==> lookup_result(accounts, client, identifier) == Err::<(int, Seq<u8>), LookupError>(
            LookupError::AccountNotFound,
        ),
{
    lemma_position_is_first(accounts, client, identifier);
}

/// The accounts of other clients have no part in a lookup: with them removed
/// it finds an account exactly when it did before, and then the same key.
pub proof fn law_lookup_ignores_other_clients(accounts: Seq<AccountView>, client: ClientIdentity, identifier: IdentifierView)
    ensures
        match lookup_result(accounts, client, identifier) {
            Ok((_, key)) => lookup_result(own_accounts(accounts, client), client, identifier) matches Ok(
                (_, own_key),
            ) && own_key == key,
            Err(e) => lookup_result(own_accounts(accounts, client), client, identifier) == Err::<
                (int, Seq<u8>),
                LookupError,
            >(e),
        },
{
    lemma_first_key(accounts, client, identifier);
    lemma_first_key(own_accounts(accounts, client), client, identifier);
    lemma_own_first_key(accounts, client, identifier);
}

/// The accounts of one client, in their order.
pub open spec fn own_accounts(accounts: Seq<AccountView>, client: ClientIdentity) -> Seq<AccountView>
    decreases accounts.len(),
{
    if accounts.len() == 0 {
        accounts
    } else if accounts.last().client == client {
        own_accounts(accounts.drop_last(), client).push(accounts.last())
    } else {
        own_accounts(accounts.drop_last(), client)
    }
}

/// The stored key of the first account that the client and the identifier name.
pub open spec fn first_key(accounts: Seq<AccountView>, client: ClientIdentity, identifier: IdentifierView) -> Option<Seq<u8>>
    decreases accounts.len(),
{
    if accounts.len() == 0 {
        None
    } else {
        match first_key(accounts.drop_last(), client, identifier) {
            Some(key) => Some(key),
            None => if identifies(accounts.last(), client, identifier) {
                Some(accounts.last().public_key)
            } else {
                None
            },
        }
    }
}

proof fn lemma_first_key(accounts: Seq<AccountView>, client: ClientIdentity, identifier: IdentifierView)
    ensures
        match position(accounts, client, identifier) {
            Some(at) => 0 <= at < accounts.len() && first_key(accounts, client, identifier) == Some(
                accounts[at].public_key,
            ),
            None => first_key(accounts, client, identifier).is_none(),
        },
    decreases accounts.len(),
{
    if accounts.len() > 0 {
        let front = accounts.drop_last();
        lemma_first_key(front, client, identifier);
        if let Some(at) = position(front, client, identifier) {
            assert(front[at] == accounts[at]);
        }
    }
}

proof fn lemma_own_first_key(accounts: Seq<AccountView>, client: ClientIdentity, identifier: IdentifierView)
    ensures
        first_key(own_accounts(accounts, client), client, identifier) == first_key(
            accounts,
            client,
            identifier,
        ),
    decreases accounts.len(),
{
    if accounts.len() > 0 {
        let front = accounts.drop_last();
        lemma_own_first_key(front, client, identifier);
        if accounts.last().client == client {
            let own = own_accounts(front, client).push(accounts.last());
            assert(own.drop_last() =~= own_accounts(front, client));
            assert(own.last() == accounts.last());
        }
    }
}

} // verus!
