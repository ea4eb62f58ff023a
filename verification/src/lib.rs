//! Threshold cryptography over the BLS12-381 pairing-friendly curve: BLS signatures, a
//! pairing-based encryption scheme, their `(t, n)`-threshold versions, and the symmetric
//! bivariate polynomials that verifiable secret sharing and distributed key generation
//! are built from.
//!
//! Scalars are held by their canonical bytes and points by their compressed encodings, so
//! that every contract speaks of plain numbers: a scalar is its value, and a point of `G1`
//! or `G2` is its discrete logarithm to the group's generator. A polynomial is the sequence
//! of its coefficients, and so is a commitment, whose points have the coefficients as their
//! logarithms. The arithmetic of the field and of the curve is that of `bls12_381`; what is
//! built on it is proved here.
//!
//! - [`field`], [`curve`]: scalars, points and the pairing.
//! - [`algebra`], [`sums`], [`lagrange`], [`reconstruction`]: polynomials as sequences, and
//!   the laws of evaluation, of rows of bivariate polynomials and of Lagrange's weights.
//! - [`poly`], [`commitment`], [`bipoly`], [`bicommitment`], [`ops`]: the polynomial types.
//! - [`sk`], [`pk`], [`sig`], [`ciphertext`], [`encoding`]: keys, signatures, ciphertexts.
//! - [`sk_share`], [`pk_share`], [`sig_share`], [`dec_share`], [`sk_set`], [`pk_set`]:
//!   shares and key sets.
//! - [`util`], [`order`], [`order_scan`], [`into_scalar`], [`error`]: hashing, ordering,
//!   conversions and errors.
pub mod algebra;
pub mod bicommitment;
pub mod bipoly;
pub mod ciphertext;
pub mod commitment;
pub mod curve;
pub mod dec_share;
pub mod encoding;
pub mod error;
pub mod field;
pub mod into_scalar;
pub mod lagrange;
pub mod ops;
pub mod order;
pub mod order_scan;
pub mod pk;
pub mod pk_set;
pub mod pk_share;
pub mod poly;
pub mod reconstruction;
pub mod sig;
pub mod sig_share;
pub mod sk;
pub mod sk_set;
pub mod sk_share;
pub mod sums;
pub mod util;

pub use bicommitment::BivarCommitment;
pub use bipoly::BivarPoly;
pub use ciphertext::Ciphertext;
pub use commitment::Commitment;
pub use curve::{G1, G2};
pub use dec_share::DecryptionShare;
pub use error::Error;
pub use field::Fr;
pub use into_scalar::IntoScalar;
pub use pk::PublicKey;
pub use pk_set::PublicKeySet;
pub use pk_share::PublicKeyShare;
pub use poly::Poly;
pub use sig::Signature;
pub use sig_share::SignatureShare;
pub use sk::SecretKey;
pub use sk_set::SecretKeySet;
pub use sk_share::SecretKeyShare;
