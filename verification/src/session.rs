//! Session credentials: what a successful login issues, and how a later
//! request is checked against it without a new proof.
//!
//! A credential names the client and the user, the time it was issued and the
//! time it expires, and carries a tag: the HMAC-SHA-256 of these four under
//! the issuer's key. It holds nothing of the private key or of the proof.

use vstd::prelude::*;
use vstd::slice::slice_subrange;
use vstd::slice::slice_to_vec;
use crate::client::ClientIdentity;
use crate::curve::{sha256, sha256_of};
use crate::encoding::bytes_equal;
use crate::registry::UserId;

verus! {

/// The eight bytes of a 64-bit number, most significant first.
pub open spec fn be8(v: u64) -> Seq<u8> {
    seq![
        (v >> 56) as u8,
        (v >> 48) as u8,
        (v >> 40) as u8,
        (v >> 32) as u8,
        (v >> 24) as u8,
        (v >> 16) as u8,
        (v >> 8) as u8,
        v as u8,
    ]
}

/// The key as one block of 64 bytes: a longer key is hashed first, and zeros
/// fill the rest.
pub open spec fn block_key(key: Seq<u8>) -> Seq<u8> {
    let short = if key.len() > 64 {
        sha256(key)
    } else {
        key
    };
    Seq::new(
        64,
        |i: int|
            if i < short.len() {
                short[i]
            } else {
                0u8
            },
    )
}

/// Every byte of the block combined with the pad by exclusive or.
pub open spec fn masked(block: Seq<u8>, pad: u8) -> Seq<u8> {
    Seq::new(block.len(), |i: int| block[i] ^ pad)
}

/// HMAC with SHA-256.
pub open spec fn hmac_sha256(key: Seq<u8>, message: Seq<u8>) -> Seq<u8> {
    sha256(masked(block_key(key), 0x5c) + sha256(masked(block_key(key), 0x36) + message))
}

fn masked_block(block: &Vec<u8>, pad: u8) -> (out: Vec<u8>)
    ensures
        out@ == masked(block@, pad),
{
    let mut out: Vec<u8> = Vec::new();
    let mut i: usize = 0;
    while i < block.len()
        invariant
            i <= block.len(),
            out@ == masked(block@.take(i as int), pad),
        decreases block.len() - i,
    {
        out.push(block[i] ^ pad);
        assert(out@ =~= masked(block@.take(i as int + 1), pad));
        i += 1;
    }
    assert(block@.take(block@.len() as int) =~= block@);
    out
}

/// Computes the HMAC-SHA-256 of a message under a key.
pub fn authentication_tag(key: &[u8], message: &[u8]) -> (tag: Vec<u8>)
    ensures
        tag@ == hmac_sha256(key@, message@),
        tag@.len() == 32,
{
    let hashed: Vec<u8>;
    let short: &[u8] = if key.len() > 64 {
        hashed = sha256_of(key);
        hashed.as_slice()
    } else {
        key
    };
    let mut block: Vec<u8> = Vec::new();
    let mut i: usize = 0;
    while i < 64
        invariant
            i <= 64,
            short@.len() <= 64,
            block@.len() == i,
            forall|j: int|
                0 <= j < i ==> #[trigger] block@[j] == if j < short@.len() {
                    short@[j]
                } else {
                    0u8
                },
        decreases 64 - i,
    {
        if i < short.len() {
            block.push(short[i]);
        } else {
            block.push(0);
        }
        i += 1;
    }
    assert(short@ == if key@.len() > 64 {
        sha256(key@)
    } else {
        key@
    });
    assert(block@ =~= block_key(key@));
    let mut inner = masked_block(&block, 0x36);
    inner.extend_from_slice(message);
    assert(inner@ =~= masked(block_key(key@), 0x36) + message@);
    let inner_digest = sha256_of(inner.as_slice());
    let mut outer = masked_block(&block, 0x5c);
    outer.extend_from_slice(inner_digest.as_slice());
    assert(outer@ =~= masked(block_key(key@), 0x5c) + inner_digest@);
    sha256_of(outer.as_slice())
}

/// A session credential as a value.
pub struct SessionView {
    pub client: ClientIdentity,
    pub user: UserId,
    pub issued_at: u64,
    pub expires_at: u64,
    pub tag: Seq<u8>,
}

/// The bytes that the tag of a credential is computed over.
pub open spec fn tagged_bytes(client: ClientIdentity, user: UserId, issued_at: u64, expires_at: u64) -> Seq<u8> {
    be8(client.0 as u64) + be8(user.0) + be8(issued_at) + be8(expires_at)
}

/// The credential that an issuer with this key and lifetime gives to a user
/// at the time `now`.
pub open spec fn issued(key: Seq<u8>, lifetime: u64, client: ClientIdentity, user: UserId, now: u64) -> SessionView {
    let expires_at = (now + lifetime) as u64;
    SessionView {
        client,
        user,
        issued_at: now,
        expires_at,
        tag: hmac_sha256(key, tagged_bytes(client, user, now, expires_at)),
    }
}

/// Whether a credential is genuine under the key and in force at the time `now`.
pub open spec fn session_valid(key: Seq<u8>, session: SessionView, now: u64) -> bool {
    &&& session.tag == hmac_sha256(
        key,
        tagged_bytes(session.client, session.user, session.issued_at, session.expires_at),
    )
    &&& session.issued_at <= now < session.expires_at
}

/// A session credential.
pub struct SessionCredential {
    client: ClientIdentity,
    user: UserId,
    issued_at: u64,
    expires_at: u64,
    tag: Vec<u8>,
}

impl View for SessionCredential {
    type V = SessionView;

    closed spec fn view(&self) -> SessionView {
        SessionView {
            client: self.client,
            user: self.user,
            issued_at: self.issued_at,
            expires_at: self.expires_at,
            tag: self.tag@,
        }
    }
}

fn put_u64(out: &mut Vec<u8>, v: u64)
    ensures
        final(out)@ == old(out)@ + be8(v),
{
    let ghost before = out@;
    out.push((v >> 56) as u8);
    out.push((v >> 48) as u8);
    out.push((v >> 40) as u8);
    out.push((v >> 32) as u8);
    out.push((v >> 24) as u8);
    out.push((v >> 16) as u8);
    out.push((v >> 8) as u8);
    out.push(v as u8);
    assert(out@ =~= before + be8(v));
}

fn tagged(client: ClientIdentity, user: UserId, issued_at: u64, expires_at: u64) -> (bytes: Vec<u8>)
    ensures
        bytes@ == tagged_bytes(client, user, issued_at, expires_at),
        bytes@.len() == 32,
{
    let mut bytes: Vec<u8> = Vec::new();
    put_u64(&mut bytes, client.0 as u64);
    put_u64(&mut bytes, user.0);
    put_u64(&mut bytes, issued_at);
    put_u64(&mut bytes, expires_at);
    assert(bytes@ =~= tagged_bytes(client, user, issued_at, expires_at));
    bytes
}

/// The 64-bit number that eight bytes denote, most significant first.
pub open spec fn from_be8(b: Seq<u8>) -> u64 {
    (b[0] as u64) << 56 | (b[1] as u64) << 48 | (b[2] as u64) << 40 | (b[3] as u64) << 32 | (
    b[4] as u64) << 24 | (b[5] as u64) << 16 | (b[6] as u64) << 8 | (b[7] as u64)
}

/// Reading eight bytes and writing the number gives the bytes back.
pub proof fn lemma_be8_of_from_be8(b: Seq<u8>)
    requires
        b.len() == 8,
    ensures
        be8(from_be8(b)) == b,
{
    let (b0, b1, b2, b3, b4, b5, b6, b7) = (b[0], b[1], b[2], b[3], b[4], b[5], b[6], b[7]);
    let v = from_be8(b);
    assert(v == (b0 as u64) << 56 | (b1 as u64) << 48 | (b2 as u64) << 40 | (b3 as u64) << 32 | (
    b4 as u64) << 24 | (b5 as u64) << 16 | (b6 as u64) << 8 | (b7 as u64));
    assert((v >> 56) as u8 == b0 && (v >> 48) as u8 == b1 && (v >> 40) as u8 == b2 && (v >> 32) as u8
        == b3 && (v >> 24) as u8 == b4 && (v >> 16) as u8 == b5 && (v >> 8) as u8 == b6 && v as u8
        == b7) by (bit_vector)
        requires
            v == (b0 as u64) << 56 | (b1 as u64) << 48 | (b2 as u64) << 40 | (b3 as u64) << 32 | (
            b4 as u64) << 24 | (b5 as u64) << 16 | (b6 as u64) << 8 | (b7 as u64),
    ;
    assert(be8(v) =~= b);
}

/// Writing a number and reading the bytes gives the number back.
pub proof fn lemma_from_be8_of_be8(v: u64)
    ensures
        from_be8(be8(v)) == v,
{
    let b = be8(v);
    assert(v == ((v >> 56) as u8 as u64) << 56 | ((v >> 48) as u8 as u64) << 48 | ((v >> 40) as u8 as u64)
        << 40 | ((v >> 32) as u8 as u64) << 32 | ((v >> 24) as u8 as u64) << 24 | ((v >> 16) as u8 as u64)
        << 16 | ((v >> 8) as u8 as u64) << 8 | (v as u8 as u64)) by (bit_vector);
}

/// The 64 bytes in which a credential travels: the four numbers, then the tag.
pub open spec fn wire_form(session: SessionView) -> Seq<u8> {
    tagged_bytes(session.client, session.user, session.issued_at, session.expires_at) + session.tag
}

fn get_u64(bytes: &[u8], at: usize) -> (v: u64)
    requires
        at + 8 <= bytes@.len(),
    ensures
        v == from_be8(bytes@.subrange(at as int, at + 8)),
        be8(v) == bytes@.subrange(at as int, at + 8),
{
    let ghost b = bytes@.subrange(at as int, at + 8);
    proof {
        lemma_be8_of_from_be8(b);
    }
    (bytes[at] as u64) << 56 | (bytes[at + 1] as u64) << 48 | (bytes[at + 2] as u64) << 40 | (bytes[at
        + 3] as u64) << 32 | (bytes[at + 4] as u64) << 24 | (bytes[at + 5] as u64) << 16 | (bytes[at
        + 6] as u64) << 8 | (bytes[at + 7] as u64)
}

impl SessionCredential {
    #[verifier::type_invariant]
    spec fn well_formed(&self) -> bool {
        self.tag@.len() == 32
    }

    /// The credential in its wire form.
    pub fn to_bytes(&self) -> (bytes: Vec<u8>)
        ensures
            bytes@ == wire_form(self@),
            bytes@.len() == 64,
    {
        proof {
            use_type_invariant(self);
        }
        let mut bytes = tagged(self.client, self.user, self.issued_at, self.expires_at);
        bytes.extend_from_slice(self.tag.as_slice());
        bytes
    }

    /// Reads a credential from its wire form: any 64 bytes are one. Whether
    /// it is genuine is for its issuer to check.
    pub fn from_bytes(bytes: &[u8]) -> (credential: Option<SessionCredential>)
        ensures
            credential.is_some() <==> bytes@.len() == 64,
            credential matches Some(c) ==> wire_form(c@) == bytes@,
    {
        if bytes.len() != 64 {
            return None;
        }
        let client_bits = get_u64(bytes, 0);
        let client = ClientIdentity(client_bits as i64);
        let user = UserId(get_u64(bytes, 8));
        let issued_at = get_u64(bytes, 16);
        let expires_at = get_u64(bytes, 24);
        let tag = slice_to_vec(slice_subrange(bytes, 32, 64));
        proof {
            assert((client_bits as i64) as u64 == client_bits) by (bit_vector);
            assert(bytes@ =~= bytes@.subrange(0, 8) + bytes@.subrange(8, 16) + bytes@.subrange(16, 24)
                + bytes@.subrange(24, 32) + bytes@.subrange(32, 64));
        }
        Some(SessionCredential { client, user, issued_at, expires_at, tag })
    }

    /// The client under which the user logged in.
    pub fn client(&self) -> (client: ClientIdentity)
        ensures
            client == self@.client,
    {
        self.client
    }

    /// The user that logged in.
    pub fn user(&self) -> (user: UserId)
        ensures
            user == self@.user,
    {
        self.user
    }

    /// The time of issue.
    pub fn issued_at(&self) -> (at: u64)
        ensures
            at == self@.issued_at,
    {
        self.issued_at
    }

    /// The time from which the credential is no longer in force.
    pub fn expires_at(&self) -> (at: u64)
        ensures
            at == self@.expires_at,
    {
        self.expires_at
    }

    /// The tag.
    pub fn tag(&self) -> (tag: &[u8])
        ensures
            tag@ == self@.tag,
    {
        self.tag.as_slice()
    }
}

/// The issuer of session credentials: a secret key and the time for which a
/// credential stays in force.
pub struct SessionIssuer {
    key: Vec<u8>,
    lifetime: u64,
}

/// An issuer as a value.
pub struct IssuerView {
    pub key: Seq<u8>,
    pub lifetime: u64,
}

impl View for SessionIssuer {
    type V = IssuerView;

    closed spec fn view(&self) -> IssuerView {
        IssuerView { key: self.key@, lifetime: self.lifetime }
    }
}

impl SessionIssuer {
    /// An issuer with the given key and lifetime.
    pub fn new(key: Vec<u8>, lifetime: u64) -> (issuer: SessionIssuer)
        ensures
            issuer@.key == key@,
            issuer@.lifetime == lifetime,
    {
        SessionIssuer { key, lifetime }
    }

    /// Issues a credential to a user at the time `now`. What is issued
    /// depends on the user, the time and the issuer alone. There is none
    /// where the time of expiry would not fit in 64 bits.
    pub fn issue(&self, client: ClientIdentity, user: UserId, now: u64) -> (credential: Option<SessionCredential>)
        ensures
            credential.is_some() <==> now + self@.lifetime <= u64::MAX,
            credential matches Some(c) ==> c@ == issued(self@.key, self@.lifetime, client, user, now),
    {
        let expires_at = match now.checked_add(self.lifetime) {
            Some(at) => at,
            None => { return None; },
        };
        let bytes = tagged(client, user, now, expires_at);
        let tag = authentication_tag(self.key.as_slice(), bytes.as_slice());
        Some(SessionCredential { client, user, issued_at: now, expires_at, tag })
    }

    /// Checks a credential at the time `now`: it is genuine if its tag is
    /// the one this issuer gives, and in force from its issue to its expiry.
    pub fn check(&self, credential: &SessionCredential, now: u64) -> (valid: bool)
        ensures
            valid == session_valid(self@.key, credential@, now),
    {
        let bytes = tagged(
            credential.client,
            credential.user,
            credential.issued_at,
            credential.expires_at,
        );
        let tag = authentication_tag(self.key.as_slice(), bytes.as_slice());
        let genuine = bytes_equal(tag.as_slice(), credential.tag.as_slice());
        genuine && credential.issued_at <= now && now < credential.expires_at
    }
}

/// The wire form tells credentials apart: two with the same 64 bytes are the same.
pub proof fn law_wire_form_injective(a: SessionView, b: SessionView)
    requires
        a.tag.len() == 32,
        b.tag.len() == 32,
        wire_form(a) == wire_form(b),
    ensures
        a == b,
{
    let wa = wire_form(a);
    let wb = wire_form(b);
    assert(wa.subrange(0, 8) =~= be8(a.client.0 as u64));
    assert(wb.subrange(0, 8) =~= be8(b.client.0 as u64));
    assert(wa.subrange(8, 16) =~= be8(a.user.0));
    assert(wb.subrange(8, 16) =~= be8(b.user.0));
    assert(wa.subrange(16, 24) =~= be8(a.issued_at));
    assert(wb.subrange(16, 24) =~= be8(b.issued_at));
    assert(wa.subrange(24, 32) =~= be8(a.expires_at));
    assert(wb.subrange(24, 32) =~= be8(b.expires_at));
    assert(wa.subrange(32, 64) =~= a.tag);
    assert(wb.subrange(32, 64) =~= b.tag);
    lemma_from_be8_of_be8(a.client.0 as u64);
    lemma_from_be8_of_be8(b.client.0 as u64);
    lemma_from_be8_of_be8(a.user.0);
    lemma_from_be8_of_be8(b.user.0);
    lemma_from_be8_of_be8(a.issued_at);
    lemma_from_be8_of_be8(b.issued_at);
    lemma_from_be8_of_be8(a.expires_at);
    lemma_from_be8_of_be8(b.expires_at);
    let (x, y) = (a.client.0, b.client.0);
    assert(x as u64 == y as u64 ==> x == y) by (bit_vector);
}

/// A credential is in force from the moment it is issued until it expires,
/// and at no other time.
pub proof fn law_issued_session_in_force(key: Seq<u8>, lifetime: u64, client: ClientIdentity, user: UserId, now: u64, at: u64)
    requires
        now + lifetime <= u64::MAX,
    ensures
        session_valid(key, issued(key, lifetime, client, user, now), at) <==> now <= at < now
            + lifetime,
{
}

} // verus!
