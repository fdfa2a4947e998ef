//! Points of the secp256k1 group, held in their compressed SEC1 encoding.

use crate::scalar::{copy_bytes, field_bytes, group_order, Scalar};
use k256::elliptic_curve::group::Curve;
use k256::elliptic_curve::PrimeField;
use k256::elliptic_curve::sec1::{FromEncodedPoint, ToEncodedPoint};
use vstd::prelude::*;

verus! {

/// The compressed SEC1 encoding of `x · G`, for `x` below the group order
/// (`x = 0` gives the one-byte encoding of the identity).
pub uninterp spec fn base_point_of(x: nat) -> Seq<u8>;

/// `b` is the compressed encoding of a point other than the identity.
pub open spec fn encodes_point(b: Seq<u8>) -> bool {
    exists|x: nat| 0 < x < group_order() && b == #[trigger] base_point_of(x)
}

/// A non-identity point of the group, in canonical (compressed) encoding.
pub struct Point {
    bytes: Vec<u8>,
}

impl Point {
    /// The encoded bytes.
    pub closed spec fn view_bytes(&self) -> Seq<u8> {
        self.bytes@
    }

    /// The encoding is that of `x · G` for some nonzero `x` below the order,
    /// that is, of some point other than the identity.
    pub open spec fn wf(&self) -> bool {
        encodes_point(self.view_bytes())
    }

    /// Reads a point from its SEC1 encoding (compressed or uncompressed) and
    /// holds it compressed; `None` where the bytes encode no point of the
    /// curve, or encode the identity.
    pub fn from_bytes(b: &[u8]) -> (r: Option<Point>)
        ensures
            r matches Some(p) ==> p.wf(),
            forall|x: nat|
                0 < x < group_order() && b@ == #[trigger] base_point_of(x) ==> (r matches Some(
                    p,
                ) && p.view_bytes() == b@),
    {
        let v = copy_bytes(b);
        match canonical_encoding(&v) {
            Some(c) => {
                if c.len() == 33 {
                    Some(Point { bytes: c })
                } else {
                    None
                }
            },
            None => None,
        }
    }

    /// The compressed encoding.
    pub fn to_bytes(&self) -> (r: Vec<u8>)
        ensures
            r@ == self.view_bytes(),
    {
        copy_bytes(self.bytes.as_slice())
    }

    /// A second point with the same encoding.
    pub fn duplicate(&self) -> (r: Point)
        ensures
            r.view_bytes() == self.view_bytes(),
    {
        Point { bytes: copy_bytes(self.bytes.as_slice()) }
    }

    /// Whether two points have the same encoding.
    pub fn same_as(&self, o: &Point) -> (r: bool)
        ensures
            r == (self.view_bytes() == o.view_bytes()),
    {
        bytes_equal(&self.bytes, &o.bytes)
    }

    /// The point `s · G`.
    pub fn from_scalar(s: &Scalar) -> (r: Point)
        requires
            s.wf(),
            s.value() > 0,
        ensures
            r.view_bytes() == base_point_of(s.value()),
            r.wf(),
    {
        Point { bytes: mul_generator(s) }
    }

    /// The bytes of the point, for the arithmetic below.
    pub fn as_vec(&self) -> (r: &Vec<u8>)
        ensures
            r@ == self.view_bytes(),
    {
        &self.bytes
    }
}

/// A compressed encoding is read back as itself, 33 bytes long unless it is
/// the identity's.
pub open spec fn keeps_canonical(r: Option<Vec<u8>>, b: Seq<u8>) -> bool {
    forall|x: nat|
        x < group_order() && b == #[trigger] base_point_of(x) ==> (r matches Some(c) && c@ == b && (
        x != 0 ==> c@.len() == 33))
}

/// For an encoding `p` of `x · G`, `r` encodes `(x · e) · G`.
pub open spec fn is_scaled(r: Option<Vec<u8>>, p: Seq<u8>, e: nat) -> bool {
    forall|x: nat|
        x < group_order() && p == #[trigger] base_point_of(x) ==> (r matches Some(c) && c@
            == base_point_of((x * e) % group_order()))
}

/// For encodings `p` of `x · G` and `q` of `y · G`, `r` encodes `(x + y) · G`.
pub open spec fn is_sum(r: Option<Vec<u8>>, p: Seq<u8>, q: Seq<u8>) -> bool {
    forall|x: nat, y: nat|
        x < group_order() && y < group_order() && p == #[trigger] base_point_of(x) && q
            == #[trigger] base_point_of(y) ==> (r matches Some(c) && c@ == base_point_of(
            (x + y) % group_order(),
        ))
}

/// Whether two byte strings are equal.
pub fn bytes_equal(a: &Vec<u8>, b: &Vec<u8>) -> (r: bool)
    ensures
        r == (a@ == b@),
{
    if a.len() != b.len() {
        return false;
    }
    let mut i: usize = 0;
    while i < a.len()
        invariant
            i <= a@.len(),
            a@.len() == b@.len(),
            forall|j: int| 0 <= j < i ==> a@[j] == b@[j],
        decreases a@.len() - i,
    {
        if a[i] != b[i] {
            return false;
        }
        i = i + 1;
    }
    assert(a@ =~= b@);
    true
}

/// Relies on `ProjectivePoint::GENERATOR * k256::Scalar`, encoded compressed by
/// `to_encoded_point(true)`: the encoding of `s · G`.
#[verifier::external_body]
fn mul_generator(s: &Scalar) -> (r: Vec<u8>)
    requires
        s.wf(),
    ensures
        r@ == base_point_of(s.value()),
{
    let k = k256::Scalar::from_repr(k256::FieldBytes::from(field_bytes(s))).unwrap();
    let p = (k256::ProjectivePoint::GENERATOR * k).to_affine();
    p.to_encoded_point(true).as_bytes().to_vec()
}

/// Relies on `AffinePoint::from_encoded_point` and `to_encoded_point(true)`:
/// a SEC1 encoding of a curve point is read back and written compressed, which
/// gives the one-byte identity encoding or 33 bytes; a compressed encoding is
/// given back as it was. `None` where the bytes encode no curve point.
#[verifier::external_body]
fn canonical_encoding(b: &Vec<u8>) -> (r: Option<Vec<u8>>)
    ensures
        r matches Some(c) ==> exists|x: nat|
            x < group_order() && c@ == #[trigger] base_point_of(x) && (x == 0 ==> c@.len() == 1)
                && (x != 0 ==> c@.len() == 33),
        keeps_canonical(r, b@),
{
    let e = k256::EncodedPoint::from_bytes(b).ok()?;
    let p = Option::<k256::AffinePoint>::from(k256::AffinePoint::from_encoded_point(&e))?;
    Some(p.to_encoded_point(true).as_bytes().to_vec())
}

/// Relies on `ProjectivePoint * k256::Scalar` on a decoded point: for the
/// encoding of `x · G`, the encoding of `(x · e) · G`.
#[verifier::external_body]
pub(crate) fn scale_point(p: &Vec<u8>, e: &Scalar) -> (r: Option<Vec<u8>>)
    requires
        e.wf(),
    ensures
        is_scaled(r, p@, e.value()),
{
    let q = k256::EncodedPoint::from_bytes(p).ok()?;
    let q = Option::<k256::AffinePoint>::from(k256::AffinePoint::from_encoded_point(&q))?;
    let k = k256::Scalar::from_repr(k256::FieldBytes::from(field_bytes(e))).unwrap();
    let s = (k256::ProjectivePoint::from(q) * k).to_affine();
    Some(s.to_encoded_point(true).as_bytes().to_vec())
}

/// Relies on `ProjectivePoint + ProjectivePoint` on decoded points: for the
/// encodings of `x · G` and `y · G`, the encoding of `(x + y) · G`.
#[verifier::external_body]
pub(crate) fn add_points(p: &Vec<u8>, q: &Vec<u8>) -> (r: Option<Vec<u8>>)
    ensures
        is_sum(r, p@, q@),
{
    let a = k256::EncodedPoint::from_bytes(p).ok()?;
    let a = Option::<k256::AffinePoint>::from(k256::AffinePoint::from_encoded_point(&a))?;
    let b = k256::EncodedPoint::from_bytes(q).ok()?;
    let b = Option::<k256::AffinePoint>::from(k256::AffinePoint::from_encoded_point(&b))?;
    let s = (k256::ProjectivePoint::from(a) + k256::ProjectivePoint::from(b)).to_affine();
    Some(s.to_encoded_point(true).as_bytes().to_vec())
}

} // verus!
