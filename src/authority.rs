//! The issuing authority and the single-use issuance session.

use crate::point::{base_point_of, Point};
use crate::scalar::{draw_nonzero, group_order, lemma_be_value_injective, scalar_add, scalar_mul, Scalar};
use crate::servicer::{challenge, challenge_of, valid_record, OwnKey, Servicer};
use rand::rngs::StdRng;
use vstd::arithmetic::div_mod::{lemma_add_mod_noop_right, lemma_mod_equivalence, lemma_small_mod};
use vstd::prelude::*;

verus! {

/// The private key share `S = k + e · a (mod n)` issued by the authority secret
/// `a` with the ephemeral secret `k`, where `e` is the challenge of `k · G` and
/// the id.
pub open spec fn issued_share(a: nat, k: nat, id: u8) -> nat {
    (k + challenge_of(base_point_of(k), id) * a) % group_order()
}

/// `sv` is the credential issued for `id` from the authority secret `a` and the
/// ephemeral secret `k`.
pub open spec fn issues(a: nat, k: nat, id: u8, sv: Servicer) -> bool {
    &&& sv.id == id
    &&& sv.R.view_bytes() == base_point_of(k)
    &&& sv.S.value() == issued_share(a, k, id)
    &&& sv.PKas.view_bytes() == base_point_of(a)
    &&& sv.PK is Issued
}

/// Why an issuance gave no credential.
#[derive(Debug, Clone, Copy, PartialEq, Eq, Structural)]
pub enum IssueError {
    /// The derived key share `k + e · a` is zero modulo the group order.
    ZeroShare,
}

/// The root of trust: a secret scalar and its public point.
#[allow(non_snake_case)]
pub struct Authority {
    s: Scalar,
    pub PK: Point,
}

impl Authority {
    /// The secret scalar.
    pub closed spec fn secret_value(&self) -> nat {
        self.s.value()
    }

    /// The public point.
    pub closed spec fn public_point(&self) -> Point {
        self.PK
    }

    /// The secret lies in `[1, n - 1]` and `PK` encodes `secret · G`.
    pub closed spec fn wf(&self) -> bool {
        &&& self.s.wf()
        &&& self.s.value() > 0
        &&& self.PK.view_bytes() == base_point_of(self.s.value())
    }

    /// Draws a fresh secret from `rng` and computes its public point.
    pub fn random(rng: &mut StdRng) -> (r: Authority)
        ensures
            r.wf(),
            r.public_point().wf(),
            0 < r.secret_value() < group_order(),
            r.public_point().view_bytes() == base_point_of(r.secret_value()),
    {
        let s = draw_nonzero(rng);
        let pk = Point::from_scalar(&s);
        Authority { s, PK: pk }
    }

    /// Issues a credential for `id` under a fresh ephemeral secret drawn from
    /// `rng`. The credential satisfies the verification equation; it is
    /// refused only where the derived share is zero.
    pub fn register_servicer(&self, id: u8, rng: &mut StdRng) -> (r: Result<Servicer, IssueError>)
        requires
            self.wf(),
        ensures
            exists|k: nat|
                0 < k < group_order() && (r is Err <==> issued_share(self.secret_value(), k, id)
                    == 0) && (r matches Ok(sv) ==> issues(self.secret_value(), k, id, sv)),
            r matches Ok(sv) ==> sv.wf() && sv.valid() && sv.PKas.view_bytes()
                == self.public_point().view_bytes(),
    {
        let session = ServicerRegister::random(self.s.duplicate(), id, rng);
        let ghost k = session.ephemeral_value();
        let ghost a = session.authority_value();
        let r = session.register();
        assert(a == self.secret_value());
        assert(0 < k < group_order() && (r is Err <==> issued_share(a, k, id) == 0) && (r matches Ok(
            sv,
        ) ==> issues(a, k, id, sv)));
        r
    }
}

/// A single-use issuance session: the id, a fresh ephemeral secret `r` and the
/// authority secret `s`. Registering consumes it.
pub struct ServicerRegister {
    id: u8,
    r: Scalar,
    s: Scalar,
}

impl ServicerRegister {
    /// The id the session issues for.
    pub closed spec fn id_value(&self) -> u8 {
        self.id
    }

    /// The ephemeral secret.
    pub closed spec fn ephemeral_value(&self) -> nat {
        self.r.value()
    }

    /// The authority secret.
    pub closed spec fn authority_value(&self) -> nat {
        self.s.value()
    }

    /// Both secrets are scalars in `[1, n - 1]`.
    pub closed spec fn wf(&self) -> bool {
        &&& self.r.wf()
        &&& self.r.value() > 0
        &&& self.s.wf()
        &&& self.s.value() > 0
    }

    /// Opens a session for `id` under the authority secret `s`, with an
    /// ephemeral secret drawn from `rng`.
    pub fn random(s: Scalar, id: u8, rng: &mut StdRng) -> (r: ServicerRegister)
        requires
            s.wf(),
            s.value() > 0,
        ensures
            r.wf(),
            r.id_value() == id,
            r.authority_value() == s.value(),
            0 < r.ephemeral_value() < group_order(),
    {
        let r = draw_nonzero(rng);
        ServicerRegister { id, r, s }
    }

    /// Opens a session for `id` under the authority secret `s` with the given
    /// ephemeral secret `r`, for issuance from known inputs.
    pub fn with_ephemeral(s: Scalar, r: Scalar, id: u8) -> (res: ServicerRegister)
        requires
            s.wf(),
            s.value() > 0,
            r.wf(),
            r.value() > 0,
        ensures
            res.wf(),
            res.id_value() == id,
            res.authority_value() == s.value(),
            res.ephemeral_value() == r.value(),
    {
        ServicerRegister { id, r, s }
    }

    /// Derives the credential: `R = r · G`, `e` the challenge of `R` and the
    /// id, `S = r + e · s (mod n)`, with the issuer's point `s · G`.
    pub fn register(self) -> (res: Result<Servicer, IssueError>)
        requires
            self.wf(),
        ensures
            res is Err <==> issued_share(self.authority_value(), self.ephemeral_value(), self.id_value())
                == 0,
            res matches Err(e) ==> e == IssueError::ZeroShare,
            res matches Ok(sv) ==> issues(
                self.authority_value(),
                self.ephemeral_value(),
                self.id_value(),
                sv,
            ) && sv.wf() && sv.valid(),
    {
        let big_r = Point::from_scalar(&self.r);
        let issuer = Point::from_scalar(&self.s);
        let e = challenge(&big_r, self.id);
        let es = scalar_mul(&e, &self.s);
        let share = scalar_add(&self.r, &es);
        proof {
            lemma_issued_record_valid(self.s.value(), self.r.value(), self.id);
            lemma_add_mod_noop_right(
                self.r.value() as int,
                (e.value() * self.s.value()) as int,
                group_order() as int,
            );
        }
        if share.is_zero() {
            return Err(IssueError::ZeroShare);
        }
        Ok(Servicer { id: self.id, R: big_r, S: share, PK: OwnKey::Issued, PKas: issuer })
    }
}

/// A credential issued from nonzero authority and ephemeral secrets satisfies
/// the verification equation.
pub proof fn lemma_issued_record_valid(a: nat, k: nat, id: u8)
    requires
        0 < a < group_order(),
        0 < k < group_order(),
    ensures
        valid_record(id, base_point_of(k), issued_share(a, k, id), base_point_of(a)),
{
    let s = issued_share(a, k, id);
    assert(base_point_of(k) == base_point_of(k) && base_point_of(a) == base_point_of(a));
    assert(base_point_of(s) == base_point_of(
        (k + challenge_of(base_point_of(k), id) * a) % group_order(),
    ));
}

/// Issuing twice from the same authority secret, ephemeral secret and id gives
/// byte-identical reconstruction points and key shares.
pub proof fn lemma_issuance_deterministic(a: nat, k: nat, id: u8, s1: Servicer, s2: Servicer)
    requires
        issues(a, k, id, s1),
        issues(a, k, id, s2),
        s1.S.wf(),
        s2.S.wf(),
    ensures
        s1.R.view_bytes() == s2.R.view_bytes(),
        s1.S.bytes_view() == s2.S.bytes_view(),
{
    lemma_be_value_injective(s1.S.bytes_view(), s2.S.bytes_view());
}

/// Two issuances for the same authority and id under different ephemeral
/// secrets differ in the reconstruction point or in the key share.
pub proof fn lemma_fresh_secret_independent(
    a: nat,
    k1: nat,
    k2: nat,
    id: u8,
    s1: Servicer,
    s2: Servicer,
)
    requires
        0 < k1 < group_order(),
        0 < k2 < group_order(),
        k1 != k2,
        issues(a, k1, id, s1),
        issues(a, k2, id, s2),
    ensures
        s1.R.view_bytes() != s2.R.view_bytes() || s1.S.value() != s2.S.value(),
{
    if s1.R.view_bytes() == s2.R.view_bytes() && s1.S.value() == s2.S.value() {
        let n = group_order() as int;
        let c = challenge_of(base_point_of(k1), id) * a;
        assert(challenge_of(base_point_of(k2), id) * a == c);
        lemma_mod_equivalence((k1 + c) as int, (k2 + c) as int, n);
        if k1 > k2 {
            lemma_small_mod((k1 - k2) as nat, n as nat);
            assert((k1 + c) - (k2 + c) == k1 - k2);
        } else {
            lemma_small_mod((k2 - k1) as nat, n as nat);
            lemma_mod_equivalence((k2 + c) as int, (k1 + c) as int, n);
            assert((k2 + c) - (k1 + c) == k2 - k1);
        }
    }
}

} // verus!
