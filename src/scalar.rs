//! Scalars modulo the secp256k1 group order, held as 32 big-endian bytes.

use k256::elliptic_curve::ops::Reduce;
use k256::elliptic_curve::PrimeField;
use vstd::prelude::*;

verus! {

/// The order n of the secp256k1 group.
pub open spec fn group_order() -> nat {
    115792089237316195423570985008687907852837564279074904382605163141518161494337nat
}

/// The integer that a byte string denotes when read big-endian.
pub open spec fn be_value(b: Seq<u8>) -> nat
    decreases b.len(),
{
    if b.len() == 0 {
        0
    } else {
        be_value(b.drop_last()) * 256 + b.last() as nat
    }
}

/// A big-endian value is zero exactly when every byte is zero.
pub proof fn lemma_be_value_zero(b: Seq<u8>)
    ensures
        be_value(b) == 0 <==> (forall|i: int| 0 <= i < b.len() ==> b[i] == 0),
    decreases b.len(),
{
    if b.len() > 0 {
        let d = b.drop_last();
        lemma_be_value_zero(d);
        if be_value(b) == 0 {
            assert forall|i: int| 0 <= i < b.len() implies b[i] == 0 by {
                if i < b.len() - 1 {
                    assert(b[i] == d[i]);
                }
            }
        }
        if forall|i: int| 0 <= i < b.len() ==> b[i] == 0 {
            assert forall|i: int| 0 <= i < d.len() implies d[i] == 0 by {
                assert(d[i] == b[i]);
            }
        }
    }
}

/// Byte strings of one length that denote the same integer are equal.
pub proof fn lemma_be_value_injective(a: Seq<u8>, b: Seq<u8>)
    requires
        a.len() == b.len(),
        be_value(a) == be_value(b),
    ensures
        a == b,
    decreases a.len(),
{
    if a.len() > 0 {
        let da = a.drop_last();
        let db = b.drop_last();
        assert(a.last() == b.last() && be_value(da) == be_value(db));
        lemma_be_value_injective(da, db);
        assert(a =~= da.push(a.last()));
        assert(b =~= db.push(b.last()));
    } else {
        assert(a =~= b);
    }
}

/// A seedable, cryptographically secure source of randomness.
#[verifier::external_type_specification]
#[verifier::external_body]
pub struct ExStdRng(rand::rngs::StdRng);

/// An integer modulo the group order.
pub struct Scalar {
    bytes: Vec<u8>,
}

impl Scalar {
    /// The bytes of the scalar, big-endian.
    pub closed spec fn bytes_view(&self) -> Seq<u8> {
        self.bytes@
    }

    /// The integer the scalar stands for.
    pub open spec fn value(&self) -> nat {
        be_value(self.bytes_view())
    }

    /// Exactly 32 bytes, denoting an integer below the group order.
    pub open spec fn wf(&self) -> bool {
        self.bytes_view().len() == 32 && self.value() < group_order()
    }

    /// Reads a scalar from its 32-byte big-endian encoding; `None` when the
    /// length is not 32 or the integer is not below the group order.
    pub fn from_bytes(b: &[u8]) -> (r: Option<Scalar>)
        ensures
            r is Some <==> (b@.len() == 32 && be_value(b@) < group_order()),
            r matches Some(s) ==> s.wf() && s.bytes_view() == b@,
    {
        if b.len() != 32 {
            return None;
        }
        let v = copy_bytes(b);
        if in_range(&v) {
            Some(Scalar { bytes: v })
        } else {
            None
        }
    }

    /// The 32-byte big-endian encoding.
    pub fn to_bytes(&self) -> (r: Vec<u8>)
        ensures
            r@ == self.bytes_view(),
    {
        copy_bytes(self.bytes.as_slice())
    }

    /// A second scalar with the same value.
    pub fn duplicate(&self) -> (r: Scalar)
        ensures
            r.bytes_view() == self.bytes_view(),
    {
        Scalar { bytes: copy_bytes(self.bytes.as_slice()) }
    }

    /// Whether the scalar is zero.
    pub fn is_zero(&self) -> (r: bool)
        ensures
            r == (self.value() == 0),
    {
        let mut i: usize = 0;
        while i < self.bytes.len()
            invariant
                i <= self.bytes@.len(),
                forall|j: int| 0 <= j < i ==> self.bytes@[j] == 0,
            decreases self.bytes@.len() - i,
        {
            if self.bytes[i] != 0 {
                proof {
                    lemma_be_value_zero(self.bytes@);
                }
                return false;
            }
            i = i + 1;
        }
        proof {
            lemma_be_value_zero(self.bytes@);
        }
        true
    }
}

/// A fresh vector holding the given bytes.
pub fn copy_bytes(b: &[u8]) -> (r: Vec<u8>)
    ensures
        r@ == b@,
{
    let mut r: Vec<u8> = Vec::new();
    let mut i: usize = 0;
    while i < b.len()
        invariant
            i <= b@.len(),
            r@ == b@.subrange(0, i as int),
        decreases b@.len() - i,
    {
        r.push(b[i]);
        i = i + 1;
        proof {
            assert(r@ =~= b@.subrange(0, i as int));
        }
    }
    assert(r@ =~= b@);
    r
}

/// The 32 bytes of a vector as an array.
fn field_array(b: &Vec<u8>) -> (r: [u8; 32])
    requires
        b@.len() == 32,
    ensures
        r@ == b@,
{
    let mut r: [u8; 32] = [0u8; 32];
    let mut i: usize = 0;
    while i < 32
        invariant
            i <= 32,
            b@.len() == 32,
            forall|j: int| 0 <= j < i ==> r@[j] == b@[j],
        decreases 32 - i,
    {
        r[i] = b[i];
        i = i + 1;
    }
    assert(r@ =~= b@);
    r
}

/// The 32 bytes of a scalar as an array.
pub(crate) fn field_bytes(s: &Scalar) -> (r: [u8; 32])
    requires
        s.wf(),
    ensures
        r@ == s.bytes_view(),
{
    field_array(&s.bytes)
}

/// Relies on `k256::Scalar::from_repr`: it accepts 32 big-endian bytes exactly
/// when they denote an integer below the group order.
#[verifier::external_body]
fn in_range(b: &Vec<u8>) -> (r: bool)
    requires
        b@.len() == 32,
    ensures
        r == (be_value(b@) < group_order()),
{
    bool::from(k256::Scalar::from_repr(k256::FieldBytes::from(field_array(b))).is_some())
}

/// Relies on `k256::NonZeroScalar::random`: rejection sampling gives a
/// scalar in `[1, n - 1]`.
#[verifier::external_body]
pub(crate) fn draw_nonzero(rng: &mut rand::rngs::StdRng) -> (r: Scalar)
    ensures
        r.wf(),
        r.value() > 0,
{
    let k = k256::NonZeroScalar::random(rng);
    Scalar { bytes: k.to_bytes().to_vec() }
}

/// Relies on `k256::Scalar` addition: the sum modulo the group order.
#[verifier::external_body]
pub(crate) fn scalar_add(a: &Scalar, b: &Scalar) -> (r: Scalar)
    requires
        a.wf(),
        b.wf(),
    ensures
        r.wf(),
        r.value() == (a.value() + b.value()) % group_order(),
{
    let x = k256::Scalar::from_repr(k256::FieldBytes::from(field_array(&a.bytes))).unwrap();
    let y = k256::Scalar::from_repr(k256::FieldBytes::from(field_array(&b.bytes))).unwrap();
    Scalar { bytes: (x + y).to_bytes().to_vec() }
}

/// Relies on `k256::Scalar` multiplication: the product modulo the group order.
#[verifier::external_body]
pub(crate) fn scalar_mul(a: &Scalar, b: &Scalar) -> (r: Scalar)
    requires
        a.wf(),
        b.wf(),
    ensures
        r.wf(),
        r.value() == (a.value() * b.value()) % group_order(),
{
    let x = k256::Scalar::from_repr(k256::FieldBytes::from(field_array(&a.bytes))).unwrap();
    let y = k256::Scalar::from_repr(k256::FieldBytes::from(field_array(&b.bytes))).unwrap();
    Scalar { bytes: (x * y).to_bytes().to_vec() }
}

/// Relies on `Reduce::<U256>::reduce_bytes` for `k256::Scalar`: 32 big-endian
/// bytes reduced modulo the group order.
#[verifier::external_body]
pub(crate) fn reduce_bytes(h: &Vec<u8>) -> (r: Scalar)
    requires
        h@.len() == 32,
    ensures
        r.wf(),
        r.value() == be_value(h@) % group_order(),
{
    let s = <k256::Scalar as Reduce<k256::U256>>::reduce_bytes(&k256::FieldBytes::from(field_array(h)));
    Scalar { bytes: s.to_bytes().to_vec() }
}

} // verus!
