//! The NIST P-256 group: its parameters, the encoding of its points, and the
//! arithmetic that the `p256` and `sha2` crates carry out.
//!
//! Points travel as SEC1 encodings and scalars as 32 big-endian bytes. What the
//! group operations return is named, not defined, here: the contracts of this
//! library are exact with respect to those names. Of the multiples of the
//! base point the contracts also state the law of the group.

use vstd::prelude::*;
use crate::encoding::be_value;
use p256::elliptic_curve::ff::PrimeField;
use p256::elliptic_curve::ops::Reduce;
use p256::elliptic_curve::sec1::FromEncodedPoint;
use p256::elliptic_curve::sec1::ToEncodedPoint;
use sha2::Digest;

verus! {

/// The number with the four given 64-bit words, most significant first.
pub open spec fn words(a: nat, b: nat, c: nat, d: nat) -> nat {
    ((a * 0x1_0000_0000_0000_0000 + b) * 0x1_0000_0000_0000_0000 + c) * 0x1_0000_0000_0000_0000
        + d
}

/// The prime `p` of the field over which the curve is defined.
pub open spec fn field_prime() -> nat {
    words(0xffff_ffff_0000_0001, 0, 0x0000_0000_ffff_ffff, 0xffff_ffff_ffff_ffff)
}

/// The coefficient `b` of the curve equation `y^2 = x^3 - 3x + b`.
pub open spec fn curve_b() -> nat {
    words(0x5ac6_35d8_aa3a_93e7, 0xb3eb_bd55_7698_86bc, 0x651d_06b0_cc53_b0f6, 0x3bce_3c3e_27d2_604b)
}

/// The order `n` of the group that the base point generates.
pub open spec fn group_order() -> nat {
    words(0xffff_ffff_0000_0000, 0xffff_ffff_ffff_ffff, 0xbce6_faad_a717_9e84, 0xf3b9_cac2_fc63_2551)
}

/// Whether `(x, y)` are the coordinates of a point on the curve.
pub open spec fn on_curve(x: nat, y: nat) -> bool {
    &&& x < field_prime()
    &&& y < field_prime()
    &&& (y * y + 3 * x) % field_prime() == (x * x * x + curve_b()) % field_prime()
}

/// Length of a compressed point encoding: one tag byte and the x coordinate.
pub const POINT_LEN: usize = 33;

/// Length of a scalar encoding.
pub const SCALAR_LEN: usize = 32;

/// Whether the bytes have the shape of a compressed encoding: the length and
/// one of the two tags that give the parity of `y`.
pub open spec fn is_compressed_shape(encoding: Seq<u8>) -> bool {
    encoding.len() == 33 && (encoding[0] == 2 || encoding[0] == 3)
}

/// Whether the bytes are the compressed encoding of a point on the curve.
pub open spec fn is_point_encoding(encoding: Seq<u8>) -> bool {
    is_compressed_shape(encoding) && exists|y: nat| on_curve(be_value(encoding.skip(1)), y)
}

/// Whether the bytes encode an element of the group: a point on the curve in
/// compressed form, or the point at infinity, which is the single byte zero.
pub open spec fn is_group_element(encoding: Seq<u8>) -> bool {
    is_point_encoding(encoding) || encoding == seq![0u8]
}

/// Whether the bytes are the encoding of a scalar: 32 bytes below the group order.
pub open spec fn is_scalar_encoding(repr: Seq<u8>) -> bool {
    repr.len() == 32 && be_value(repr) < group_order()
}

/// The encoding of the base point multiplied by the scalar `k`.
pub uninterp spec fn generator_multiple(k: nat) -> Seq<u8>;

/// The encoding of the group element `point` multiplied by the scalar `k`.
pub uninterp spec fn point_multiple(k: nat, point: Seq<u8>) -> Seq<u8>;

/// The encoding of the sum of two group elements.
pub uninterp spec fn point_sum(a: Seq<u8>, b: Seq<u8>) -> Seq<u8>;

/// The SHA-256 digest of a message.
pub uninterp spec fn sha256(message: Seq<u8>) -> Seq<u8>;

/// Calls `p256::AffinePoint::from_encoded_point` on the bytes, read by
/// `p256::EncodedPoint::from_bytes`. Trusted: for bytes of compressed shape
/// the point is decoded exactly when the x coordinate is below the field
/// prime and has a `y` on the curve.
#[verifier::external_body]
#[allow(deprecated)]
pub(crate) fn decompresses(encoding: &[u8]) -> (valid: bool)
    requires
        is_compressed_shape(encoding@),
    ensures
        valid == is_point_encoding(encoding@),
{
    match p256::EncodedPoint::from_bytes(encoding) {
        Ok(encoded) => bool::from(p256::AffinePoint::from_encoded_point(&encoded).is_some()),
        Err(_) => false,
    }
}

/// Calls `p256::Scalar::from_repr` on 32 bytes. Trusted: it gives a scalar
/// exactly for the big-endian numbers below the group order.
#[verifier::external_body]
#[allow(deprecated)]
pub(crate) fn scalar_in_range(repr: &[u8]) -> (valid: bool)
    requires
        repr@.len() == 32,
    ensures
        valid == (be_value(repr@) < group_order()),
{
    bool::from(p256::Scalar::from_repr(p256::FieldBytes::clone_from_slice(repr)).is_some())
}

/// Calls `p256::Scalar::reduce_bytes` on 32 bytes and writes the scalar with
/// `p256::Scalar::to_bytes`. Trusted: the result is the 32-byte encoding of
/// the number modulo the group order.
#[verifier::external_body]
#[allow(deprecated)]
pub(crate) fn reduce_mod_order(wide: &[u8]) -> (repr: Vec<u8>)
    requires
        wide@.len() == 32,
    ensures
        repr@.len() == 32,
        be_value(repr@) == be_value(wide@) % group_order(),
{
    let wide = p256::FieldBytes::clone_from_slice(wide);
    <p256::Scalar as Reduce<p256::U256>>::reduce_bytes(&wide).to_bytes().to_vec()
}

/// Calls `p256::Scalar::add` on two scalars read by `from_repr`. Trusted: the
/// result is the 32-byte encoding of the sum modulo the group order.
#[verifier::external_body]
#[allow(deprecated)]
pub(crate) fn scalar_sum(a: &[u8], b: &[u8]) -> (repr: Vec<u8>)
    requires
        is_scalar_encoding(a@),
        is_scalar_encoding(b@),
    ensures
        repr@.len() == 32,
        be_value(repr@) == (be_value(a@) + be_value(b@)) % group_order(),
{
    let a = p256::Scalar::from_repr(p256::FieldBytes::clone_from_slice(a)).unwrap();
    let b = p256::Scalar::from_repr(p256::FieldBytes::clone_from_slice(b)).unwrap();
    a.add(&b).to_bytes().to_vec()
}

/// Calls `p256::Scalar::multiply` on two scalars read by `from_repr`. Trusted:
/// the result is the 32-byte encoding of the product modulo the group order.
#[verifier::external_body]
#[allow(deprecated)]
pub(crate) fn scalar_product(a: &[u8], b: &[u8]) -> (repr: Vec<u8>)
    requires
        is_scalar_encoding(a@),
        is_scalar_encoding(b@),
    ensures
        repr@.len() == 32,
        be_value(repr@) == (be_value(a@) * be_value(b@)) % group_order(),
{
    let a = p256::Scalar::from_repr(p256::FieldBytes::clone_from_slice(a)).unwrap();
    let b = p256::Scalar::from_repr(p256::FieldBytes::clone_from_slice(b)).unwrap();
    a.multiply(&b).to_bytes().to_vec()
}

/// Multiplies `p256::ProjectivePoint::GENERATOR` by a scalar, with the `*` of
/// `p256::ProjectivePoint`, and encodes the product in compressed form with
/// `to_encoded_point`.
///
/// Trusted: the result encodes a group element and is the same for the same
/// scalar. The `group` crate documents the type as an element of a group of
/// prime order, its generator as one of that group, and the scalars as the
/// numbers modulo that order. Of this the contract takes that the base point
/// has the order `n`: only the scalar zero gives the point at infinity, and
/// no other scalar below `n` gives the same multiple.
#[verifier::external_body]
#[allow(deprecated)]
pub(crate) fn generator_times(k: &[u8]) -> (point: Vec<u8>)
    requires
        is_scalar_encoding(k@),
    ensures
        point@ == generator_multiple(be_value(k@)),
        is_group_element(point@),
        is_point_encoding(point@) <==> be_value(k@) != 0,
        forall|j: nat|
            j < group_order() && #[trigger] generator_multiple(j) == point@ ==> j == be_value(k@),
{
    let k = p256::Scalar::from_repr(p256::FieldBytes::clone_from_slice(k)).unwrap();
    (p256::ProjectivePoint::GENERATOR * k).to_affine().to_encoded_point(true).as_bytes().to_vec()
}

/// Multiplies a point, read by `p256::ProjectivePoint::from_encoded_point`, by
/// a scalar, with the `*` of `p256::ProjectivePoint`, and encodes the product
/// in compressed form.
///
/// Trusted: the result encodes a group element and is the same for the same
/// scalar and point. The `group` crate documents `*` as the scalar
/// multiplication of the group. Of this the contract takes that the multiple
/// of a multiple of the base point is its multiple by the product of the
/// scalars modulo `n`. Of other points it does not say which element results.
#[verifier::external_body]
#[allow(deprecated)]
pub(crate) fn point_times(k: &[u8], point: &[u8]) -> (multiple: Vec<u8>)
    requires
        is_scalar_encoding(k@),
        is_group_element(point@),
    ensures
        multiple@ == point_multiple(be_value(k@), point@),
        is_group_element(multiple@),
        forall|x: nat|
            x < group_order() && point@ == #[trigger] generator_multiple(x) ==> multiple@
                == generator_multiple((be_value(k@) * x) % group_order()),
{
    let k = p256::Scalar::from_repr(p256::FieldBytes::clone_from_slice(k)).unwrap();
    let point = p256::EncodedPoint::from_bytes(point).unwrap();
    let point = p256::ProjectivePoint::from_encoded_point(&point).unwrap();
    (point * k).to_affine().to_encoded_point(true).as_bytes().to_vec()
}

/// Adds two points, read by `p256::ProjectivePoint::from_encoded_point`, with
/// the `+` of `p256::ProjectivePoint`, and encodes the sum in compressed
/// form.
///
/// Trusted: the result encodes a group element and is the same for the same
/// two points. The `group` crate documents `+` as the operation of the
/// group. Of this the contract takes that the sum of two multiples of the
/// base point is its multiple by the sum of the scalars modulo `n`. Of other
/// points it does not say which element results.
#[verifier::external_body]
#[allow(deprecated)]
pub(crate) fn point_plus(a: &[u8], b: &[u8]) -> (sum: Vec<u8>)
    requires
        is_group_element(a@),
        is_group_element(b@),
    ensures
        sum@ == point_sum(a@, b@),
        is_group_element(sum@),
        forall|x: nat, y: nat|
            x < group_order() && y < group_order() && a@ == #[trigger] generator_multiple(x) && b@
                == #[trigger] generator_multiple(y) ==> sum@ == generator_multiple(
                (x + y) % group_order(),
            ),
{
    let a = p256::EncodedPoint::from_bytes(a).unwrap();
    let a = p256::ProjectivePoint::from_encoded_point(&a).unwrap();
    let b = p256::EncodedPoint::from_bytes(b).unwrap();
    let b = p256::ProjectivePoint::from_encoded_point(&b).unwrap();
    (a + b).to_affine().to_encoded_point(true).as_bytes().to_vec()
}

/// Calls `sha2::Sha256::digest`. Trusted: the digest has 32 bytes and is the
/// same for the same message. Which bytes they are, is not stated.
#[verifier::external_body]
#[allow(deprecated)]
pub(crate) fn sha256_of(message: &[u8]) -> (digest: Vec<u8>)
    ensures
        digest@ == sha256(message@),
        digest@.len() == 32,
{
    sha2::Sha256::digest(message).to_vec()
}

} // verus!
