//! The login protocol: a non-interactive Schnorr proof of knowledge of the
//! private key behind a registered public key, bound to a payload.

use vstd::prelude::*;
use vstd::arithmetic::div_mod::lemma_add_mod_noop_right;
use vstd::slice::slice_to_vec;
use vstd::string::StringSliceAdditionalSpecFns;
use crate::curve::{
    decompresses, generator_multiple, generator_times, group_order, is_point_encoding,
    is_scalar_encoding, point_multiple, point_plus, point_sum, point_times, reduce_mod_order,
    scalar_in_range, scalar_product, scalar_sum, sha256, sha256_of, POINT_LEN, SCALAR_LEN,
};
use crate::encoding::{be_value, bytes_equal, is_all_zero};

verus! {

/// A user's public key: a point on the curve, held in compressed encoding.
pub struct PublicKey {
    encoding: Vec<u8>,
}

impl View for PublicKey {
    type V = Seq<u8>;

    closed spec fn view(&self) -> Seq<u8> {
        self.encoding@
    }
}

impl PublicKey {
    #[verifier::type_invariant]
    spec fn well_formed(&self) -> bool {
        is_point_encoding(self.encoding@)
    }

    /// Accepts the bytes exactly when they are the compressed encoding of a
    /// point on the curve.
    pub fn from_bytes(bytes: &[u8]) -> (key: Option<PublicKey>)
        ensures
            key.is_some() <==> is_point_encoding(bytes@),
            key matches Some(k) ==> k@ == bytes@,
    {
        if bytes.len() != POINT_LEN || (bytes[0] != 2 && bytes[0] != 3) {
            return None;
        }
        if !decompresses(bytes) {
            return None;
        }
        Some(PublicKey { encoding: slice_to_vec(bytes) })
    }

    /// The public key `d * G` of the private key `d`, where there is one: the
    /// private key is a scalar other than zero.
    pub fn from_secret(secret: &[u8]) -> (key: Option<PublicKey>)
        ensures
            key.is_some() <==> is_private_key(secret@),
            key matches Some(k) ==> k@ == generator_multiple(be_value(secret@))
                && is_point_encoding(k@),
    {
        if secret.len() != SCALAR_LEN || !scalar_in_range(secret) || is_all_zero(secret) {
            return None;
        }
        let point = generator_times(secret);
        Some(PublicKey { encoding: point })
    }

    /// The compressed encoding of the key.
    pub fn as_bytes(&self) -> (bytes: &[u8])
        ensures
            bytes@ == self@,
            is_point_encoding(self@),
    {
        proof {
            use_type_invariant(self);
        }
        self.encoding.as_slice()
    }
}

/// Whether the bytes are a private key: the encoding of a scalar other than
/// zero.
pub open spec fn is_private_key(secret: Seq<u8>) -> bool {
    is_scalar_encoding(secret) && be_value(secret) != 0
}

/// Why the two parts of a proof, as they came over the wire, are not a proof.
#[derive(Clone, Copy, Debug, PartialEq, Eq, Structural)]
pub enum MalformedProof {
    /// The commitment is the point at infinity.
    CommitmentAtInfinity,
    /// The commitment is not the compressed encoding of a point on the curve.
    CommitmentNotOnCurve,
    /// The response is not 32 bytes that denote a number below the group order.
    ResponseOutOfRange,
    /// The response is zero.
    ResponseZero,
}

/// The first defect of a commitment and a response, if they have one.
pub open spec fn proof_defect(commitment: Seq<u8>, response: Seq<u8>) -> Option<MalformedProof> {
    if commitment == seq![0u8] {
        Some(MalformedProof::CommitmentAtInfinity)
    } else if !is_point_encoding(commitment) {
        Some(MalformedProof::CommitmentNotOnCurve)
    } else if !is_scalar_encoding(response) {
        Some(MalformedProof::ResponseOutOfRange)
    } else if be_value(response) == 0 {
        Some(MalformedProof::ResponseZero)
    } else {
        None
    }
}

/// What a login proof holds: the encoded commitment and the encoded response.
pub struct ProofParts {
    pub commitment: Seq<u8>,
    pub response: Seq<u8>,
}

/// A proof for one login attempt: a commitment `R` and a response `s`.
pub struct LoginProof {
    commitment: Vec<u8>,
    response: Vec<u8>,
}

impl View for LoginProof {
    type V = ProofParts;

    closed spec fn view(&self) -> ProofParts {
        ProofParts { commitment: self.commitment@, response: self.response@ }
    }
}

impl LoginProof {
    #[verifier::type_invariant]
    spec fn well_formed(&self) -> bool {
        proof_defect(self.commitment@, self.response@).is_none()
    }

    /// Takes the two parts of a proof as they came over the wire, and names
    /// the first defect where they have one.
    pub fn decode(commitment: &[u8], response: &[u8]) -> (decoded: Result<LoginProof, MalformedProof>)
        ensures
            match decoded {
                Ok(proof) => proof_defect(commitment@, response@).is_none()
                    && proof@.commitment == commitment@ && proof@.response == response@,
                Err(defect) => proof_defect(commitment@, response@) == Some(defect),
            },
    {
        if commitment.len() == 1 && commitment[0] == 0 {
            assert(commitment@ =~= seq![0u8]);
            return Err(MalformedProof::CommitmentAtInfinity);
        }
        assert(commitment@ != seq![0u8]) by {
            if commitment@ == seq![0u8] {
                assert(commitment@.len() == 1 && commitment@[0] == 0);
            }
        }
        if commitment.len() != POINT_LEN || (commitment[0] != 2 && commitment[0] != 3) {
            return Err(MalformedProof::CommitmentNotOnCurve);
        }
        if !decompresses(commitment) {
            return Err(MalformedProof::CommitmentNotOnCurve);
        }
        if response.len() != SCALAR_LEN || !scalar_in_range(response) {
            return Err(MalformedProof::ResponseOutOfRange);
        }
        if is_all_zero(response) {
            return Err(MalformedProof::ResponseZero);
        }
        Ok(LoginProof { commitment: slice_to_vec(commitment), response: slice_to_vec(response) })
    }

    /// The compressed encoding of the commitment.
    pub fn commitment(&self) -> (bytes: &[u8])
        ensures
            bytes@ == self@.commitment,
            proof_defect(self@.commitment, self@.response).is_none(),
    {
        proof {
            use_type_invariant(self);
        }
        self.commitment.as_slice()
    }

    /// The 32 bytes of the response.
    pub fn response(&self) -> (bytes: &[u8])
        ensures
            bytes@ == self@.response,
            proof_defect(self@.commitment, self@.response).is_none(),
    {
        proof {
            use_type_invariant(self);
        }
        self.response.as_slice()
    }
}

/// The bytes that are hashed into the challenge: the commitment, the public
/// key and the payload, in this order.
pub open spec fn challenge_input(commitment: Seq<u8>, key: Seq<u8>, payload: Seq<u8>) -> Seq<u8> {
    commitment + key + payload
}

/// The challenge `e`: the digest of the commitment, the public key and the
/// payload, read as a number and reduced modulo the group order.
pub open spec fn challenge(commitment: Seq<u8>, key: Seq<u8>, payload: Seq<u8>) -> nat {
    be_value(sha256(challenge_input(commitment, key, payload))) % group_order()
}

/// The verification equation `s * G == R + e * P`.
pub open spec fn equation_holds(key: Seq<u8>, commitment: Seq<u8>, response: nat, e: nat) -> bool {
    generator_multiple(response) == point_sum(commitment, point_multiple(e, key))
}

/// Whether a well-formed proof is accepted for a key and a payload.
pub open spec fn accepts(key: Seq<u8>, proof: ProofParts, payload: Seq<u8>) -> bool {
    equation_holds(
        key,
        proof.commitment,
        be_value(proof.response),
        challenge(proof.commitment, key, payload),
    )
}

/// Derives the challenge for a commitment, a public key and a payload.
pub fn derive_challenge(commitment: &[u8], key: &[u8], payload: &[u8]) -> (e: Vec<u8>)
    ensures
        is_scalar_encoding(e@),
        be_value(e@) == challenge(commitment@, key@, payload@),
{
    let mut input: Vec<u8> = Vec::new();
    input.extend_from_slice(commitment);
    input.extend_from_slice(key);
    input.extend_from_slice(payload);
    assert(input@ =~= challenge_input(commitment@, key@, payload@));
    let digest = sha256_of(input.as_slice());
    reduce_mod_order(digest.as_slice())
}

/// The response `k + e * d` modulo the group order, which an honest prover
/// gives for the private key `d`, the nonce `k` and the challenge `e`.
pub open spec fn honest_response(d: nat, k: nat, e: nat) -> nat {
    (k + e * d) % group_order()
}

/// What acceptance means of the key `d * G` and the commitment `k * G`,
/// whatever `d` and `k` are: the proof is accepted exactly when its response
/// is the one that an honest prover gives for this payload. So the honest
/// proof is always accepted, a response made for another payload is
/// rejected unless it is also the response for this one, and of all
/// scalars at most one is accepted.
pub open spec fn accepts_honest_response_only(key: Seq<u8>, proof: ProofParts, payload: Seq<u8>) -> bool {
    forall|d: nat, k: nat|
        d < group_order() && k < group_order() && key == #[trigger] generator_multiple(d)
            && proof.commitment == #[trigger] generator_multiple(k) ==> (accepts(key, proof, payload)
            <==> be_value(proof.response) == honest_response(
            d,
            k,
            challenge(proof.commitment, key, payload),
        ))
}

/// What acceptance means of any key and commitment: where the proof is
/// accepted, no other scalar below the group order would be accepted in the
/// place of its response. So a pair chosen at random is accepted for at
/// most one response out of `n`.
pub open spec fn accepts_one_response_only(key: Seq<u8>, proof: ProofParts, payload: Seq<u8>) -> bool {
    accepts(key, proof, payload) ==> forall|other: nat|
        other < group_order() && #[trigger] equation_holds(
            key,
            proof.commitment,
            other,
            challenge(proof.commitment, key, payload),
        ) ==> other == be_value(proof.response)
}

/// Decides whether the proof shows knowledge of the private key behind `key`,
/// for this payload. The two sides of the equation are compared as a whole.
pub fn verify(key: &PublicKey, proof: &LoginProof, payload: &str) -> (accepted: bool)
    ensures
        accepted == accepts(key@, proof@, payload.spec_bytes()),
        accepts_honest_response_only(key@, proof@, payload.spec_bytes()),
        accepts_one_response_only(key@, proof@, payload.spec_bytes()),
{
    let key_bytes = key.as_bytes();
    let commitment = proof.commitment();
    let response = proof.response();
    let e = derive_challenge(commitment, key_bytes, payload.as_bytes());
    let left = generator_times(response);
    let multiple = point_times(e.as_slice(), key_bytes);
    let right = point_plus(commitment, multiple.as_slice());
    proof {
        let n = group_order();
        let s = be_value(response@);
        let c = be_value(e@);
        assert forall|d: nat, k: nat|
            d < n && k < n && key@ == #[trigger] generator_multiple(d) && proof@.commitment
                == #[trigger] generator_multiple(k) implies (accepts(key@, proof@, payload.spec_bytes())
            <==> s == honest_response(d, k, c)) by {
            let product = (c * d) % n;
            assert(multiple@ == generator_multiple(product));
            assert(right@ == generator_multiple((k + product) % n));
            lemma_add_mod_noop_right(k as int, c as int * d as int, n as int);
            assert((k + product) % n == honest_response(d, k, c));
        }
    }
    bytes_equal(left.as_slice(), right.as_slice())
}

/// The proof that an honest prover constructs from a private key, a nonce and
/// a payload: the commitment `k * G`, and the response to the challenge that
/// the commitment, the public key `d * G` and the payload give.
pub open spec fn honest_proof(secret: Seq<u8>, nonce: Seq<u8>, payload: Seq<u8>, response: Seq<u8>) -> bool {
    let d = be_value(secret);
    let k = be_value(nonce);
    let commitment = generator_multiple(k);
    response.len() == 32 && be_value(response) == honest_response(
        d,
        k,
        challenge(commitment, generator_multiple(d), payload),
    )
}

/// Whether a prover can use the nonce with the private key for the payload:
/// the nonce is a scalar other than zero, and the response that results is
/// not zero.
pub open spec fn nonce_usable(secret: Seq<u8>, nonce: Seq<u8>, payload: Seq<u8>) -> bool {
    let k = be_value(nonce);
    &&& is_scalar_encoding(nonce)
    &&& k != 0
    &&& honest_response(
        be_value(secret),
        k,
        challenge(generator_multiple(k), generator_multiple(be_value(secret)), payload),
    ) != 0
}

/// Constructs the proof for one login attempt. The nonce must be fresh and
/// random: the caller supplies it. There is a proof exactly when the private
/// key is one and the nonce is usable with it.
pub fn prove(secret: &[u8], nonce: &[u8], payload: &str) -> (proof: Option<LoginProof>)
    ensures
        proof.is_some() <==> is_private_key(secret@) && nonce_usable(
            secret@,
            nonce@,
            payload.spec_bytes(),
        ),
        proof matches Some(p) ==> p@.commitment == generator_multiple(be_value(nonce@))
            && honest_proof(secret@, nonce@, payload.spec_bytes(), p@.response),
{
    let key = match PublicKey::from_secret(secret) {
        Some(key) => key,
        None => { return None; },
    };
    if nonce.len() != SCALAR_LEN || !scalar_in_range(nonce) {
        return None;
    }
    if is_all_zero(nonce) {
        return None;
    }
    let commitment = generator_times(nonce);
    let e = derive_challenge(commitment.as_slice(), key.as_bytes(), payload.as_bytes());
    let product = scalar_product(e.as_slice(), secret);
    let response = scalar_sum(nonce, product.as_slice());
    proof {
        lemma_add_mod_noop_right(
            be_value(nonce@) as int,
            be_value(e@) as int * be_value(secret@) as int,
            group_order() as int,
        );
    }
    if is_all_zero(response.as_slice()) {
        return None;
    }
    Some(LoginProof { commitment, response })
}

} // verus!
