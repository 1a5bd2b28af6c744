//! A login attempt from the stored record to the session credential, and the
//! answer that the caller is given.

use vstd::prelude::*;
use vstd::string::StringSliceAdditionalSpecFns;
use crate::client::ClientIdentity;
use crate::curve::{is_point_encoding, is_scalar_encoding};
use crate::encoding::be_value;
use crate::registry::{
    chosen_identifier, position, text_view, AccountView, Identifier, IdentifierView, KeyRegistry,
    UserId,
};
use crate::schnorr::{
    accepts, accepts_honest_response_only, accepts_one_response_only, proof_defect, verify, LoginProof, MalformedProof,
    ProofParts, PublicKey,
};
use crate::session::{issued, SessionCredential, SessionIssuer, SessionView};

verus! {

/// Why a login attempt gave no session.
#[derive(Clone, Copy, Debug, PartialEq, Eq, Structural)]
pub enum LoginFailure {
    /// The request names neither a username nor an email.
    MissingIdentifier,
    /// The client has no account with the identifier.
    AccountNotFound,
    /// The account's stored key is not a point on the curve.
    CorruptKeyRecord,
    /// The commitment or the response is not well formed.
    MalformedProof(MalformedProof),
    /// The proof does not satisfy the verification equation.
    ProofRejected,
    /// The time of expiry does not fit in 64 bits.
    ClockOutOfRange,
}

/// The classes of answer that a caller can tell apart.
#[derive(Clone, Copy, Debug, PartialEq, Eq, Structural)]
pub enum LoginResponse {
    /// The login failed: one answer for every failure of the user's making.
    Failed,
    /// The request itself is incomplete.
    BadRequest,
    /// A fault on the server's side, of which the caller learns no detail.
    InternalError,
}

/// The class of answer for each failure.
pub open spec fn failure_class(failure: LoginFailure) -> LoginResponse {
    match failure {
        LoginFailure::MissingIdentifier => LoginResponse::BadRequest,
        LoginFailure::AccountNotFound => LoginResponse::Failed,
        LoginFailure::MalformedProof(_) => LoginResponse::Failed,
        LoginFailure::ProofRejected => LoginResponse::Failed,
        LoginFailure::CorruptKeyRecord => LoginResponse::InternalError,
        LoginFailure::ClockOutOfRange => LoginResponse::InternalError,
    }
}

impl LoginFailure {
    /// The class of answer for a failure. An unknown account, a malformed
    /// proof and a rejected proof are answered alike.
    pub fn response(&self) -> (class: LoginResponse)
        ensures
            class == failure_class(*self),
    {
        match self {
            LoginFailure::MissingIdentifier => LoginResponse::BadRequest,
            LoginFailure::AccountNotFound => LoginResponse::Failed,
            LoginFailure::MalformedProof(_) => LoginResponse::Failed,
            LoginFailure::ProofRejected => LoginResponse::Failed,
            LoginFailure::CorruptKeyRecord => LoginResponse::InternalError,
            LoginFailure::ClockOutOfRange => LoginResponse::InternalError,
        }
    }
}

impl LoginResponse {
    /// The HTTP status of the answer.
    pub fn status_code(&self) -> (code: u16)
        ensures
            code == match *self {
                LoginResponse::Failed => 401u16,
                LoginResponse::BadRequest => 400u16,
                LoginResponse::InternalError => 500u16,
            },
    {
        match self {
            LoginResponse::Failed => 401,
            LoginResponse::BadRequest => 400,
            LoginResponse::InternalError => 500,
        }
    }

    /// The text of the answer.
    pub fn message(&self) -> (text: &'static str)
        ensures
            text@ == match *self {
                LoginResponse::Failed => "proof failed or user doesn't exist"@,
                LoginResponse::BadRequest => "missing email or username"@,
                LoginResponse::InternalError => "an internal server error occured"@,
            },
    {
        match self {
            LoginResponse::Failed => "proof failed or user doesn't exist",
            LoginResponse::BadRequest => "missing email or username",
            LoginResponse::InternalError => "an internal server error occured",
        }
    }
}

/// What the check of a proof against a stored key gives.
pub open spec fn proof_check(stored_key: Seq<u8>, commitment: Seq<u8>, response: Seq<u8>, payload: Seq<u8>) -> Result<
    (),
    LoginFailure,
> {
    if !is_point_encoding(stored_key) {
        Err(LoginFailure::CorruptKeyRecord)
    } else {
        match proof_defect(commitment, response) {
            Some(defect) => Err(LoginFailure::MalformedProof(defect)),
            None => if accepts(stored_key, ProofParts { commitment, response }, payload) {
                Ok(())
            } else {
                Err(LoginFailure::ProofRejected)
            },
        }
    }
}

/// What a check says of knowledge, for a stored key that is a point and a
/// proof that is well formed. Where the key is `d * G` and the commitment is
/// `k * G`, the check succeeds exactly for the response `k + e * d` modulo
/// the group order, with the challenge `e` of this commitment, this key and
/// this payload. And whatever the key and the commitment are, where the
/// check succeeds it would for no other response.
pub open spec fn checks_knowledge(stored_key: Seq<u8>, commitment: Seq<u8>, response: Seq<u8>, payload: Seq<u8>) -> bool {
    is_point_encoding(stored_key) && proof_defect(commitment, response).is_none() ==> {
        &&& accepts_honest_response_only(stored_key, ProofParts { commitment, response }, payload)
        &&& accepts_one_response_only(stored_key, ProofParts { commitment, response }, payload)
    }
}

/// Checks a proof, as it came over the wire, against a key, as it is stored.
/// No input makes it fail in any other way than by its result.
pub fn check_proof(stored_key: &[u8], commitment: &[u8], response: &[u8], payload: &str) -> (checked: Result<(), LoginFailure>)
    ensures
        checked == proof_check(stored_key@, commitment@, response@, payload.spec_bytes()),
        checks_knowledge(stored_key@, commitment@, response@, payload.spec_bytes()),
{
    let key = match PublicKey::from_bytes(stored_key) {
        Some(key) => key,
        None => { return Err(LoginFailure::CorruptKeyRecord); },
    };
    let proof = match LoginProof::decode(commitment, response) {
        Ok(proof) => proof,
        Err(defect) => { return Err(LoginFailure::MalformedProof(defect)); },
    };
    assert(proof@ == ProofParts { commitment: commitment@, response: response@ });
    if verify(&key, &proof, payload) {
        Ok(())
    } else {
        Err(LoginFailure::ProofRejected)
    }
}

/// The view of an optional record.
pub open spec fn record_view(record: Option<(UserId, &[u8])>) -> Option<(UserId, Seq<u8>)> {
    match record {
        Some((user, key)) => Some((user, key@)),
        None => None,
    }
}

/// What a login attempt gives, once the store has answered for the account.
pub open spec fn login_result(
    record: Option<(UserId, Seq<u8>)>,
    commitment: Seq<u8>,
    response: Seq<u8>,
    payload: Seq<u8>,
    key: Seq<u8>,
    lifetime: u64,
    client: ClientIdentity,
    now: u64,
) -> Result<SessionView, LoginFailure> {
    match record {
        None => Err(LoginFailure::AccountNotFound),
        Some((user, stored_key)) => match proof_check(stored_key, commitment, response, payload) {
            Err(failure) => Err(failure),
            Ok(_) => if now + lifetime <= u64::MAX {
                Ok(issued(key, lifetime, client, user, now))
            } else {
                Err(LoginFailure::ClockOutOfRange)
            },
        },
    }
}

/// The compressed encoding of the base point of the curve, as a value.
pub open spec fn base_point_encoding() -> Seq<u8> {
    seq![
        0x03u8, 0x6bu8, 0x17u8, 0xd1u8, 0xf2u8, 0xe1u8, 0x2cu8, 0x42u8, 0x47u8, 0xf8u8, 0xbcu8,
        0xe6u8, 0xe5u8, 0x63u8, 0xa4u8, 0x40u8, 0xf2u8, 0x77u8, 0x03u8, 0x7du8, 0x81u8, 0x2du8,
        0xebu8, 0x33u8, 0xa0u8, 0xf4u8, 0xa1u8, 0x39u8, 0x45u8, 0xd8u8, 0x98u8, 0xc2u8, 0x96u8,
    ]
}

/// The compressed encoding of the base point of the curve.
pub fn base_point() -> (encoding: [u8; 33])
    ensures
        encoding@ == base_point_encoding(),
{
    let encoding: [u8; 33] = [
        0x03, 0x6b, 0x17, 0xd1, 0xf2, 0xe1, 0x2c, 0x42, 0x47, 0xf8, 0xbc, 0xe6, 0xe5, 0x63, 0xa4,
        0x40, 0xf2, 0x77, 0x03, 0x7d, 0x81, 0x2d, 0xeb, 0x33, 0xa0, 0xf4, 0xa1, 0x39, 0x45, 0xd8,
        0x98, 0xc2, 0x96,
    ];
    assert(encoding@ =~= base_point_encoding());
    encoding
}

/// Decides a login attempt from what the store holds for the account.
///
/// Where there is no account, the proof is still checked, against the base
/// point in place of a key, and the outcome of that check is dropped: an
/// unknown account costs the work that a wrong proof costs.
pub fn decide_login(
    issuer: &SessionIssuer,
    client: ClientIdentity,
    record: Option<(UserId, &[u8])>,
    commitment: &[u8],
    response: &[u8],
    payload: &str,
    now: u64,
) -> (outcome: Result<SessionCredential, LoginFailure>)
    ensures
        match outcome {
            Ok(credential) => login_result(
                record_view(record),
                commitment@,
                response@,
                payload.spec_bytes(),
                issuer@.key,
                issuer@.lifetime,
                client,
                now,
            ) == Ok::<SessionView, LoginFailure>(credential@),
            Err(failure) => login_result(
                record_view(record),
                commitment@,
                response@,
                payload.spec_bytes(),
                issuer@.key,
                issuer@.lifetime,
                client,
                now,
            ) == Err::<SessionView, LoginFailure>(failure),
        },
        record matches Some((_, stored_key)) ==> checks_knowledge(
            stored_key@,
            commitment@,
            response@,
            payload.spec_bytes(),
        ),
{
    match record {
        None => {
            let stand_in = base_point();
            let _ = check_proof(stand_in.as_slice(), commitment, response, payload);
            Err(LoginFailure::AccountNotFound)
        },
        Some((user, stored_key)) => match check_proof(stored_key, commitment, response, payload) {
            Err(failure) => Err(failure),
            Ok(_) => match issuer.issue(client, user, now) {
                Some(credential) => Ok(credential),
                None => Err(LoginFailure::ClockOutOfRange),
            },
        },
    }
}

/// What the registry holds for a request: the record of the account that its
/// identifier names within the client.
pub open spec fn stored_record(
    accounts: Seq<AccountView>,
    client: ClientIdentity,
    identifier: IdentifierView,
) -> Option<(UserId, Seq<u8>)> {
    match position(accounts, client, identifier) {
        Some(at) => Some((UserId(at as u64), accounts[at].public_key)),
        None => None,
    }
}

/// A login attempt against a registry: the account is found by the client
/// and by the username or, without one, the email; the proof is checked
/// against its key and for the payload; a session is issued on success.
pub fn login(
    registry: &KeyRegistry,
    issuer: &SessionIssuer,
    client: ClientIdentity,
    username: Option<String>,
    email: Option<String>,
    commitment: &[u8],
    response: &[u8],
    payload: &str,
    now: u64,
) -> (outcome: Result<SessionCredential, LoginFailure>)
    ensures
        match chosen_identifier(text_view(username), text_view(email)) {
            None => outcome matches Err(failure) && failure == LoginFailure::MissingIdentifier,
            Some(identifier) => match outcome {
                Ok(credential) => login_result(
                    stored_record(registry@, client, identifier),
                    commitment@,
                    response@,
                    payload.spec_bytes(),
                    issuer@.key,
                    issuer@.lifetime,
                    client,
                    now,
                ) == Ok::<SessionView, LoginFailure>(credential@),
                Err(failure) => login_result(
                    stored_record(registry@, client, identifier),
                    commitment@,
                    response@,
                    payload.spec_bytes(),
                    issuer@.key,
                    issuer@.lifetime,
                    client,
                    now,
                ) == Err::<SessionView, LoginFailure>(failure),
            },
        },
        match chosen_identifier(text_view(username), text_view(email)) {
            Some(identifier) => match stored_record(registry@, client, identifier) {
                Some((_, stored_key)) => checks_knowledge(
                    stored_key,
                    commitment@,
                    response@,
                    payload.spec_bytes(),
                ),
                None => true,
            },
            None => true,
        },
{
    let identifier = match Identifier::select(username, email) {
        Some(identifier) => identifier,
        None => { return Err(LoginFailure::MissingIdentifier); },
    };
    let record = registry.find_record(client, &identifier);
    decide_login(issuer, client, record, commitment, response, payload, now)
}

/// Malformed input is rejected, and by the result alone: a stored key that
/// is no point on the curve is a corrupt record, a commitment that is none
/// and a response that is no scalar are malformed proofs. None of them is
/// ever accepted.
pub proof fn law_malformed_input_rejected(stored_key: Seq<u8>, commitment: Seq<u8>, response: Seq<u8>, payload: Seq<u8>)
    ensures
        !is_point_encoding(stored_key) ==> proof_check(stored_key, commitment, response, payload)
            == Err::<(), LoginFailure>(LoginFailure::CorruptKeyRecord),
        is_point_encoding(stored_key) && !is_point_encoding(commitment) ==> proof_check(
            stored_key,
            commitment,
            response,
            payload,
        ) == Err::<(), LoginFailure>(
            LoginFailure::MalformedProof(
                if commitment == seq![0u8] {
                    MalformedProof::CommitmentAtInfinity
                } else {
                    MalformedProof::CommitmentNotOnCurve
                },
            ),
        ),
        is_point_encoding(stored_key) && is_point_encoding(commitment) && !is_scalar_encoding(response)
            ==> proof_check(stored_key, commitment, response, payload) == Err::<(), LoginFailure>(
            LoginFailure::MalformedProof(MalformedProof::ResponseOutOfRange),
        ),
        proof_check(stored_key, commitment, response, payload).is_ok() ==> is_point_encoding(stored_key)
            && is_point_encoding(commitment) && is_scalar_encoding(response) && be_value(response) != 0,
{
    if is_point_encoding(commitment) {
        assert(commitment.len() == 33);
        assert(seq![0u8].len() == 1);
    }
}

/// The caller cannot tell an unknown account from a proof that failed: both
/// are answered in the same class, with the same status and the same text.
pub proof fn law_failures_answered_alike(defect: MalformedProof)
    ensures
        failure_class(LoginFailure::AccountNotFound) == LoginResponse::Failed,
        failure_class(LoginFailure::ProofRejected) == LoginResponse::Failed,
        failure_class(LoginFailure::MalformedProof(defect)) == LoginResponse::Failed,
{
}

} // verus!
