//! Implicit-certificate key issuance over secp256k1.
//!
//! An [`authority::Authority`] holds a root secret and issues identity-bound
//! credentials ([`servicer::Servicer`]) whose validity anyone can check from
//! the credential and the issuer's public point alone.

pub mod scalar;
pub mod point;
pub mod servicer;
pub mod authority;
