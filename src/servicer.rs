//! Issued credentials and the check that they were validly issued.

use crate::point::{add_points, base_point_of, bytes_equal, encodes_point, scale_point, Point};
use crate::scalar::{be_value, group_order, reduce_bytes, Scalar};
use k256::sha2::Digest;
use vstd::arithmetic::div_mod::lemma_add_mod_noop_right;
use vstd::arithmetic::mul::lemma_mul_is_commutative;
use vstd::prelude::*;

verus! {

/// The SHA-256 digest of a byte string.
pub uninterp spec fn sha256_of(data: Seq<u8>) -> Seq<u8>;

/// The bytes hashed for the challenge: the encoded point, a zero byte, the id.
pub open spec fn challenge_input(r: Seq<u8>, id: u8) -> Seq<u8> {
    r + seq![0u8, id]
}

/// The challenge `e = Hash(encode(R) ‖ 0x00 ‖ id) mod n`.
pub open spec fn challenge_of(r: Seq<u8>, id: u8) -> nat {
    be_value(sha256_of(challenge_input(r, id))) % group_order()
}

/// The verification equation `S · G == R + e · P`, with `R` and `P` the
/// encodings of `x · G` and `y · G`.
pub open spec fn valid_record(id: u8, r: Seq<u8>, s: nat, p: Seq<u8>) -> bool {
    exists|x: nat, y: nat|
        x < group_order() && y < group_order() && r == #[trigger] base_point_of(x) && p
            == #[trigger] base_point_of(y) && base_point_of(s) == base_point_of(
            (x + challenge_of(r, id) * y) % group_order(),
        )
}

/// Reducing the product first leaves the sum modulo the order unchanged.
proof fn lemma_shift_sum(x: nat, y: nat, e: nat)
    ensures
        (x + (y * e) % group_order()) % group_order() == (x + e * y) % group_order(),
{
    let n = group_order() as int;
    lemma_add_mod_noop_right(x as int, (y * e) as int, n);
    lemma_mul_is_commutative(y as int, e as int);
}

/// Relies on `sha2::Sha256::digest` (as re-exported by k256): the 32-byte
/// SHA-256 digest.
#[verifier::external_body]
fn sha256(data: &Vec<u8>) -> (r: Vec<u8>)
    ensures
        r@ == sha256_of(data@),
        r@.len() == 32,
{
    k256::sha2::Sha256::digest(data.as_slice()).to_vec()
}

/// The challenge for a reconstruction point and an id.
pub fn challenge(r: &Point, id: u8) -> (e: Scalar)
    ensures
        e.wf(),
        e.value() == challenge_of(r.view_bytes(), id),
{
    let mut msg = r.to_bytes();
    msg.push(0u8);
    msg.push(id);
    assert(msg@ =~= challenge_input(r.view_bytes(), id));
    let h = sha256(&msg);
    reduce_bytes(&h)
}

/// Why encoded credential fields were refused.
#[derive(Debug, Clone, Copy, PartialEq, Eq, Structural)]
pub enum DecodeError {
    /// The key share is not 32 bytes denoting an integer in `[1, n - 1]`.
    Share,
    /// A point is not a valid encoding of a non-identity curve point.
    Point,
}

/// Whether the holder has an own public key yet.
pub enum OwnKey {
    /// Issued, with no own public key.
    Issued,
    /// Activated with the given own public key.
    Activated(Point),
}

/// An issued credential: the id, the reconstruction point `R`, the private
/// key share `S`, the holder's own key state and the issuer's public point.
#[allow(non_snake_case)]
pub struct Servicer {
    pub id: u8,
    pub R: Point,
    pub S: Scalar,
    pub PK: OwnKey,
    pub PKas: Point,
}

impl Servicer {
    /// Every point is a non-identity group element and the share is a
    /// nonzero scalar below the group order.
    pub open spec fn wf(&self) -> bool {
        &&& self.R.wf()
        &&& self.S.wf()
        &&& self.S.value() > 0
        &&& self.PKas.wf()
        &&& self.PK matches OwnKey::Activated(p) ==> p.wf()
    }

    /// The verification equation holds of this record.
    pub open spec fn valid(&self) -> bool {
        valid_record(self.id, self.R.view_bytes(), self.S.value(), self.PKas.view_bytes())
    }

    /// Builds a credential from encoded fields, as received from outside: the
    /// share as 32 big-endian bytes, the points in SEC1 encoding.
    pub fn from_encoded(id: u8, r: &[u8], s: &[u8], issuer: &[u8]) -> (res: Result<Servicer, DecodeError>)
        ensures
            res matches Err(DecodeError::Share) <==> !(s@.len() == 32 && 0 < be_value(s@) < group_order()),
            res matches Ok(sv) ==> sv.wf() && sv.id == id && sv.S.bytes_view() == s@ && sv.PK is Issued,
            (s@.len() == 32 && 0 < be_value(s@) < group_order() && encodes_point(r@) && encodes_point(
                issuer@,
            )) ==> (res matches Ok(sv) && sv.R.view_bytes() == r@ && sv.PKas.view_bytes() == issuer@),
    {
        let share = match Scalar::from_bytes(s) {
            Some(v) => v,
            None => return Err(DecodeError::Share),
        };
        if share.is_zero() {
            return Err(DecodeError::Share);
        }
        let big_r = match Point::from_bytes(r) {
            Some(p) => p,
            None => return Err(DecodeError::Point),
        };
        let pkas = match Point::from_bytes(issuer) {
            Some(p) => p,
            None => return Err(DecodeError::Point),
        };
        Ok(Servicer { id, R: big_r, S: share, PK: OwnKey::Issued, PKas: pkas })
    }

    /// Recomputes `S · G` and `R + e · PKas` and tells whether they agree.
    pub fn is_valid(&self) -> (r: bool)
        requires
            self.wf(),
        ensures
            r == self.valid(),
    {
        let left = Point::from_scalar(&self.S);
        let e = challenge(&self.R, self.id);
        let scaled = match scale_point(self.PKas.as_vec(), &e) {
            Some(v) => v,
            None => return false,
        };
        let right = match add_points(self.R.as_vec(), &scaled) {
            Some(v) => v,
            None => return false,
        };
        let r = bytes_equal(left.as_vec(), &right);
        proof {
            let n = group_order();
            let x = choose|x: nat| 0 < x < n && self.R.view_bytes() == #[trigger] base_point_of(x);
            let y = choose|y: nat| 0 < y < n && self.PKas.view_bytes() == #[trigger] base_point_of(y);
            let ev = e.value();
            let ey = (y * ev) % n;
            assert(scaled@ == base_point_of(ey));
            assert(ey < n) by (nonlinear_arith)
                requires n > 0, ey == (y * ev) % n;
            assert(right@ == base_point_of((x + ey) % n));
            lemma_shift_sum(x, y, ev);
            if r {
                assert(valid_record(self.id, self.R.view_bytes(), self.S.value(), self.PKas.view_bytes()));
            } else {
                assert forall|x2: nat, y2: nat|
                    x2 < n && y2 < n && self.R.view_bytes() == #[trigger] base_point_of(x2)
                        && self.PKas.view_bytes() == #[trigger] base_point_of(y2) implies
                    base_point_of(self.S.value()) != base_point_of((x2 + ev * y2) % n) by {
                    let ey2 = (y2 * ev) % n;
                    assert(ey2 < n) by (nonlinear_arith)
                        requires n > 0, ey2 == (y2 * ev) % n;
                    assert(scaled@ == base_point_of(ey2));
                    assert(right@ == base_point_of((x2 + ey2) % n));
                    lemma_shift_sum(x2, y2, ev);
                }
            }
        }
        r
    }
}

} // verus!
