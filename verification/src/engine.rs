//! Trusted boundary to the proving engine and the scalar field.
//!
//! The constraint-system prover, the Pedersen commitment scheme, the
//! Fiat-Shamir transcript and the scalar field arithmetic live in outside
//! crates.  Each item here either declares one of their types or wraps one
//! of their functions behind a contract that states only what the crate's
//! own source shows.  The prover itself cannot be declared (its type
//! parameter carries a `BorrowMut` bound), so a proving session holds it
//! in an opaque struct and forwards the narrow constraint-system
//! interface that relation gadgets build against.

use bulletproofs::r1cs::ConstraintSystem;
use bulletproofs::r1cs::LinearCombination;
use bulletproofs::r1cs::Prover;
use bulletproofs::r1cs::R1CSError;
use bulletproofs::r1cs::R1CSProof;
use bulletproofs::r1cs::Variable;
use bulletproofs::BulletproofGens;
use bulletproofs::PedersenGens;
use curve25519_dalek_ng::ristretto::CompressedRistretto;
use curve25519_dalek_ng::scalar::Scalar;
use merlin::Transcript;
use vstd::prelude::*;

use crate::wire::le_val;

verus! {

#[verifier::external_type_specification]
#[verifier::external_body]
pub struct ExScalar(Scalar);

#[verifier::external_type_specification]
#[verifier::external_body]
pub struct ExCompressedRistretto(CompressedRistretto);

#[verifier::external_type_specification]
#[verifier::external_body]
pub struct ExR1CSProof(R1CSProof);

#[verifier::external_type_specification]
#[verifier::external_body]
pub struct ExR1CSError(R1CSError);

#[verifier::external_type_specification]
#[verifier::external_body]
pub struct ExVariable(Variable);

#[verifier::external_type_specification]
#[verifier::external_body]
pub struct ExLinearCombination(LinearCombination);

/// One proving session: a fresh transcript, the fixed Pedersen generators
/// and the engine's prover, opaque to verification.
#[verifier::external_body]
pub struct ProverSession {
    prover: Prover<'static, Transcript>,
    bp_gens: BulletproofGens,
}

/// The order of the scalar field: 2^252 + 27742317777372353535851937790883648493.
pub open spec fn group_order() -> nat {
    7237005577332262213973186563042994240857116359379907606001950938285454250989nat
}

/// The canonical 32-byte little-endian encoding of a scalar.
pub uninterp spec fn scalar_bytes(s: Scalar) -> Seq<u8>;

/// The scalar that a small unsigned integer maps to.
pub uninterp spec fn scalar_of_u8(x: u8) -> Scalar;

/// The compressed Pedersen commitment to `v` under blinding `b`, with the
/// generators that every session is created with.
pub uninterp spec fn pedersen(v: Scalar, b: Scalar) -> Seq<u8>;

/// The 32-byte encoding of a compressed group element.
pub uninterp spec fn cr_bytes(c: CompressedRistretto) -> Seq<u8>;

/// The serialized form of a finished constraint-system proof.
pub uninterp spec fn r1cs_proof_bytes(p: R1CSProof) -> Seq<u8>;

/// Relies on curve25519-dalek-ng's Scalar::from_canonical_bytes: it
/// returns a scalar exactly when the 32 bytes are the canonical
/// little-endian encoding of an integer below the group order, and that
/// scalar's canonical encoding is those bytes.
#[verifier::external_body]
pub(crate) fn scalar_from_canonical(bytes: &[u8]) -> (r: Option<Scalar>)
    requires
        bytes@.len() == 32,
    ensures
        r is Some <==> le_val(bytes@) < group_order(),
        r is Some ==> scalar_bytes(r->Some_0) == bytes@,
{
    let mut arr = [0u8; 32];
    arr.copy_from_slice(bytes);
    Scalar::from_canonical_bytes(arr)
}

/// Relies on curve25519-dalek-ng's From<u8> for Scalar: the scalar depends
/// on the byte alone.
#[verifier::external_body]
pub(crate) fn scalar_from_u8(x: u8) -> (r: Scalar)
    ensures
        r == scalar_of_u8(x),
{
    Scalar::from(x)
}

/// Relies on curve25519-dalek-ng's Scalar::random with rand's thread-local
/// generator.  Nothing is promised of the result.
#[verifier::external_body]
pub(crate) fn scalar_random() -> (r: Scalar) {
    Scalar::random(&mut rand::thread_rng())
}

impl ProverSession {
    /// Relies on bulletproofs' PedersenGens::default, BulletproofGens::new,
    /// merlin's Transcript::new and r1cs::Prover::new to open a fresh
    /// session.  The generators are leaked so the prover can borrow them
    /// for its whole life; `gens_capacity` bounds the multiplier count.
    #[verifier::external_body]
    pub fn new(gens_capacity: usize) -> (r: ProverSession) {
        let pc_gens: &'static PedersenGens = Box::leak(Box::new(PedersenGens::default()));
        let transcript = Transcript::new(b"blindbid proof");
        ProverSession {
            prover: Prover::new(pc_gens, transcript),
            bp_gens: BulletproofGens::new(gens_capacity, 1),
        }
    }

    /// Relies on bulletproofs' r1cs::Prover::commit: the returned
    /// compressed point is the Pedersen commitment to `(v, b)`, a 32-byte
    /// encoding determined by the two scalars alone for the generators
    /// every session is created with.
    #[verifier::external_body]
    pub fn commit(&mut self, v: Scalar, b: Scalar) -> (r: (CompressedRistretto, Variable))
        ensures
            cr_bytes(r.0) == pedersen(v, b),
            cr_bytes(r.0).len() == 32,
    {
        self.prover.commit(v, b)
    }

    /// Relies on bulletproofs' ConstraintSystem::constrain: records that
    /// the linear combination must equal zero.  Gadgets build on this.
    #[verifier::external_body]
    pub fn constrain(&mut self, lc: LinearCombination) {
        ConstraintSystem::constrain(&mut self.prover, lc)
    }

    /// Relies on bulletproofs' ConstraintSystem::multiply: allocates a
    /// multiplication gate and returns its three variables.  Gadgets
    /// build on this.
    #[verifier::external_body]
    pub fn multiply(&mut self, left: LinearCombination, right: LinearCombination) -> (r: (
        Variable,
        Variable,
        Variable,
    )) {
        ConstraintSystem::multiply(&mut self.prover, left, right)
    }

    /// Relies on bulletproofs' r1cs::Prover::prove: it consumes the
    /// session and either returns a proof or the engine's own error.
    /// Nothing is promised of which outcome comes back.
    #[verifier::external_body]
    pub fn finalize(self) -> (r: Result<R1CSProof, R1CSError>) {
        self.prover.prove(&self.bp_gens)
    }
}

/// Relies on bulletproofs' R1CSProof::to_bytes: the serialized form is a
/// function of the proof value alone.
#[verifier::external_body]
pub(crate) fn proof_to_bytes(p: &R1CSProof) -> (r: Vec<u8>)
    ensures
        r@ == r1cs_proof_bytes(*p),
{
    p.to_bytes()
}

/// Relies on curve25519-dalek-ng's CompressedRistretto::to_bytes: the
/// 32-byte encoding is a function of the point alone.
#[verifier::external_body]
pub(crate) fn cr_to_bytes(c: &CompressedRistretto) -> (r: Vec<u8>)
    ensures
        r@ == cr_bytes(*c),
        r@.len() == 32,
{
    c.to_bytes().to_vec()
}

/// Relies on std's Read::read_to_end.  Nothing is promised of the bytes;
/// `None` reports the reader's own failure.
#[verifier::external_body]
pub(crate) fn read_all<R: std::io::Read>(mut reader: R) -> (r: Option<Vec<u8>>) {
    let mut buf = Vec::new();
    match reader.read_to_end(&mut buf) {
        Ok(_) => Some(buf),
        Err(_) => None,
    }
}

} // verus!
