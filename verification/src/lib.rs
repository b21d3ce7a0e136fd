//! Blind-bid proving library.
//!
//! Private bid scalars are turned into Pedersen commitments, a one-hot
//! indicator commitment is produced for each entry of a public list, the
//! committed variables are handed to a pluggable relation gadget, and the
//! resulting constraint-system proof is serialized to a length-prefixed
//! binary stream.  A separate path reads a witness bundle from such a
//! stream and re-runs the prover on it.

pub mod engine;
pub mod proving;
pub mod wire;

pub use engine::ProverSession;
pub use proving::parse_witness_bundle;
pub use proving::read_encoded_proof;
pub use proving::Error;
pub use proving::Proof;
pub use proving::RelationGadget;
pub use proving::WitnessBundle;
