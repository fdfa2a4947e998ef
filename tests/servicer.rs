use implicit_cert::authority::{Authority, ServicerRegister};
use implicit_cert::point::Point;
use implicit_cert::scalar::Scalar;
use implicit_cert::servicer::{challenge, DecodeError, OwnKey, Servicer};
use rand::rngs::StdRng;
use rand::SeedableRng;

fn hex(s: &str) -> Vec<u8> {
    (0..s.len() / 2)
        .map(|i| u8::from_str_radix(&s[2 * i..2 * i + 2], 16).unwrap())
        .collect()
}

const SECRET_A: &str = "1f2e3d4c5b6a79880123456789abcdeffedcba98765432100f1e2d3c4b5a6978";
const SECRET_K: &str = "0123456789abcdef0123456789abcdef0123456789abcdef0123456789abcdef";
const GOLDEN_R: &str = "034646ae5047316b4230d0086c8acec687f00b1cd9d1dc634f6cb358ac0a9a8fff";
const GOLDEN_PK: &str = "02796d98a5fbe9fcf2533ec08e63474b5e41dff419c2171ce9e8a886c64458050e";
const GOLDEN_E: &str = "7dae1a55491f31478354855fed1a5a95a8d08a92885d091075bdb90cafb7f12a";
const GOLDEN_S: &str = "0c69a89fd39cf970a2e8a0cfae09e3fe6e8e28829917e9dfa4076a441a5fee0d";

fn golden_servicer() -> Servicer {
    let a = Scalar::from_bytes(&hex(SECRET_A)).unwrap();
    let k = Scalar::from_bytes(&hex(SECRET_K)).unwrap();
    ServicerRegister::with_ephemeral(a, k, 10).register().unwrap()
}

fn copy_of(s: &Servicer) -> Servicer {
    Servicer {
        id: s.id,
        R: s.R.duplicate(),
        S: s.S.duplicate(),
        PK: OwnKey::Issued,
        PKas: s.PKas.duplicate(),
    }
}

#[test]
fn test_verify_servicer() {
    let mut rng = StdRng::from_entropy();

    let authority = Authority::random(&mut rng);
    let servicer = authority.register_servicer(10, &mut rng).unwrap();

    let result = servicer.is_valid();
    assert!(result);
}

#[test]
fn golden_vector_issuance() {
    let s = golden_servicer();
    assert_eq!(s.id, 10);
    assert_eq!(s.R.to_bytes(), hex(GOLDEN_R));
    assert_eq!(s.PKas.to_bytes(), hex(GOLDEN_PK));
    assert_eq!(s.S.to_bytes(), hex(GOLDEN_S));
    assert!(matches!(s.PK, OwnKey::Issued));
    assert!(s.is_valid());
}

#[test]
fn golden_challenge() {
    let r = Point::from_bytes(&hex(GOLDEN_R)).unwrap();
    assert_eq!(challenge(&r, 10).to_bytes(), hex(GOLDEN_E));
}

#[test]
fn generator_and_its_double() {
    let one = Scalar::from_bytes(&hex("0000000000000000000000000000000000000000000000000000000000000001")).unwrap();
    let two = Scalar::from_bytes(&hex("0000000000000000000000000000000000000000000000000000000000000002")).unwrap();
    assert_eq!(
        Point::from_scalar(&one).to_bytes(),
        hex("0279be667ef9dcbbac55a06295ce870b07029bfcdb2dce28d959f2815b16f81798")
    );
    assert_eq!(
        Point::from_scalar(&two).to_bytes(),
        hex("02c6047f9441ed7d6d3045406e95c07cd85c778e4b8cef3ca7abac09b95c709ee5")
    );
}

#[test]
fn uncompressed_point_is_held_compressed() {
    let p = Point::from_bytes(&hex("04c6047f9441ed7d6d3045406e95c07cd85c778e4b8cef3ca7abac09b95c709ee51ae168fea63dc339a3c58419466ceaeef7f632653266d0e1236431a950cfe52a")).unwrap();
    assert_eq!(
        p.to_bytes(),
        hex("02c6047f9441ed7d6d3045406e95c07cd85c778e4b8cef3ca7abac09b95c709ee5")
    );
}

#[test]
fn malformed_points_are_refused() {
    assert!(Point::from_bytes(&[]).is_none());
    assert!(Point::from_bytes(&[0u8]).is_none());
    let mut bad = hex(GOLDEN_R);
    bad.pop();
    assert!(Point::from_bytes(&bad).is_none());
    let mut bad_tag = hex(GOLDEN_R);
    bad_tag[0] = 7;
    assert!(Point::from_bytes(&bad_tag).is_none());
    let mut off_curve = hex("04c6047f9441ed7d6d3045406e95c07cd85c778e4b8cef3ca7abac09b95c709ee51ae168fea63dc339a3c58419466ceaeef7f632653266d0e1236431a950cfe52a");
    off_curve[64] ^= 1;
    assert!(Point::from_bytes(&off_curve).is_none());
}

#[test]
fn scalar_range_is_checked() {
    let order = "fffffffffffffffffffffffffffffffebaaedce6af48a03bbfd25e8cd0364141";
    let below = "fffffffffffffffffffffffffffffffebaaedce6af48a03bbfd25e8cd0364140";
    assert!(Scalar::from_bytes(&hex(order)).is_none());
    assert!(Scalar::from_bytes(&hex(below)).is_some());
    assert!(Scalar::from_bytes(&[1u8; 31]).is_none());
    let zero = Scalar::from_bytes(&[0u8; 32]).unwrap();
    assert!(zero.is_zero());
    assert!(!Scalar::from_bytes(&hex(below)).unwrap().is_zero());
}

#[test]
fn changed_id_is_rejected() {
    let mut rng = StdRng::seed_from_u64(2024);
    let authority = Authority::random(&mut rng);
    let servicer = authority.register_servicer(10, &mut rng).unwrap();
    assert!(servicer.is_valid());
    let mut other = copy_of(&servicer);
    other.id = 11;
    assert!(!other.is_valid());
}

#[test]
fn every_bit_flip_is_rejected() {
    let s = golden_servicer();
    for bit in 0..8 {
        let mut c = copy_of(&s);
        c.id ^= 1 << bit;
        assert!(!c.is_valid());
    }
    let share = s.S.to_bytes();
    for i in 0..share.len() * 8 {
        let mut b = share.clone();
        b[i / 8] ^= 1 << (i % 8);
        if let Some(v) = Scalar::from_bytes(&b) {
            if !v.is_zero() {
                let mut c = copy_of(&s);
                c.S = v;
                assert!(!c.is_valid());
            }
        }
    }
    for field in 0..2 {
        let enc = if field == 0 { s.R.to_bytes() } else { s.PKas.to_bytes() };
        for i in 0..enc.len() * 8 {
            let mut b = enc.clone();
            b[i / 8] ^= 1 << (i % 8);
            if let Some(p) = Point::from_bytes(&b) {
                let mut c = copy_of(&s);
                if field == 0 {
                    c.R = p;
                } else {
                    c.PKas = p;
                }
                assert!(!c.is_valid());
            }
        }
    }
}

#[test]
fn issuance_round_trips_for_many_ids() {
    let mut rng = StdRng::seed_from_u64(7);
    let authority = Authority::random(&mut rng);
    for id in [0u8, 1, 10, 127, 255] {
        let s = authority.register_servicer(id, &mut rng).unwrap();
        assert_eq!(s.id, id);
        assert!(s.PKas.same_as(&authority.PK));
        assert!(s.is_valid());
    }
}

#[test]
fn issuance_is_deterministic() {
    let s1 = golden_servicer();
    let s2 = golden_servicer();
    assert_eq!(s1.R.to_bytes(), s2.R.to_bytes());
    assert_eq!(s1.S.to_bytes(), s2.S.to_bytes());
}

#[test]
fn fresh_ephemeral_secrets_give_independent_records() {
    let mut rng = StdRng::seed_from_u64(5);
    let authority = Authority::random(&mut rng);
    let s1 = authority.register_servicer(10, &mut rng).unwrap();
    let s2 = authority.register_servicer(10, &mut rng).unwrap();
    assert!(s1.is_valid() && s2.is_valid());
    assert_ne!(s1.R.to_bytes(), s2.R.to_bytes());
    assert_ne!(s1.S.to_bytes(), s2.S.to_bytes());
}

#[test]
fn records_lie_in_the_group() {
    let mut rng = StdRng::seed_from_u64(11);
    let authority = Authority::random(&mut rng);
    let s = authority.register_servicer(3, &mut rng).unwrap();
    for enc in [s.R.to_bytes(), s.PKas.to_bytes()] {
        assert_eq!(enc.len(), 33);
        assert!(enc[0] == 2 || enc[0] == 3);
    }
    assert!(!s.S.is_zero());
}

#[test]
fn session_registers_with_drawn_secret() {
    let mut rng = StdRng::seed_from_u64(3);
    let a = Scalar::from_bytes(&hex(SECRET_A)).unwrap();
    let session = ServicerRegister::random(a, 42, &mut rng);
    let s = session.register().unwrap();
    assert_eq!(s.id, 42);
    assert_eq!(s.PKas.to_bytes(), hex(GOLDEN_PK));
    assert!(s.is_valid());
}

#[test]
fn decoded_golden_record_verifies() {
    let s = Servicer::from_encoded(10, &hex(GOLDEN_R), &hex(GOLDEN_S), &hex(GOLDEN_PK)).unwrap();
    assert_eq!(s.R.to_bytes(), hex(GOLDEN_R));
    assert!(s.is_valid());
    let t = Servicer::from_encoded(11, &hex(GOLDEN_R), &hex(GOLDEN_S), &hex(GOLDEN_PK)).unwrap();
    assert!(!t.is_valid());
}

#[test]
fn decode_errors_are_reported() {
    assert_eq!(
        Servicer::from_encoded(10, &hex(GOLDEN_R), &[0u8; 32], &hex(GOLDEN_PK)).err(),
        Some(DecodeError::Share)
    );
    assert_eq!(
        Servicer::from_encoded(10, &hex(GOLDEN_R), &[1u8; 31], &hex(GOLDEN_PK)).err(),
        Some(DecodeError::Share)
    );
    assert_eq!(
        Servicer::from_encoded(10, &[2u8; 5], &hex(GOLDEN_S), &hex(GOLDEN_PK)).err(),
        Some(DecodeError::Point)
    );
    assert_eq!(
        Servicer::from_encoded(10, &hex(GOLDEN_R), &hex(GOLDEN_S), &[0u8]).err(),
        Some(DecodeError::Point)
    );
}
