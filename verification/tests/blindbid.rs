use blindbid::wire::{u64_to_le8, write_list, write_record};
use blindbid::{Error, Proof, ProverSession, RelationGadget};

use bulletproofs::r1cs::{LinearCombination, Variable};
use curve25519_dalek_ng::scalar::Scalar;

/// A small relation for exercising the proving pipeline: the indicator
/// commitments must sum to one, and the committed bid variables are bound
/// into the circuit through two multiplication gates.
struct TestGadget;

impl RelationGadget for TestGadget {
    fn assert_relation(
        &self,
        cs: &mut ProverSession,
        d: Variable,
        k: Variable,
        y_inv: Variable,
        _q: Scalar,
        _z_img: Scalar,
        _seed: Scalar,
        toggle_vars: Vec<Variable>,
        _pub_list: &Vec<Scalar>,
    ) {
        let mut sum: LinearCombination = Scalar::zero().into();
        for v in toggle_vars {
            sum = sum + v;
        }
        cs.constrain(sum - Scalar::one());
        let (_, _, dk) = cs.multiply(d.into(), k.into());
        let _ = cs.multiply(y_inv.into(), dk.into());
    }
}

fn sample_witness() -> (Scalar, Scalar, Scalar, Scalar, Scalar, Scalar, Scalar) {
    let y = Scalar::from(5u64);
    (
        Scalar::from(7u64),
        Scalar::from(3u64),
        y,
        y.invert(),
        Scalar::from(2u64),
        Scalar::from(9u64),
        Scalar::from(11u64),
    )
}

fn sample_list() -> Vec<Scalar> {
    vec![
        Scalar::from(1u64),
        Scalar::from(2u64),
        Scalar::from(3u64),
        Scalar::from(4u64),
    ]
}

fn prove_sample(toggle: usize) -> Proof {
    let (d, k, y, y_inv, q, z_img, seed) = sample_witness();
    Proof::prove(d, k, y, y_inv, q, z_img, seed, sample_list(), toggle, &TestGadget)
        .expect("proving failed")
}

fn le8(bytes: &[u8]) -> u64 {
    let mut v: u64 = 0;
    for i in (0..8).rev() {
        v = v * 256 + bytes[i] as u64;
    }
    v
}

#[test]
fn prove_returns_four_commitments_and_one_per_entry() {
    let p = prove_sample(2);
    assert_eq!(p.commitments.len(), 4);
    assert_eq!(p.t_c.len(), 4);
}

#[test]
fn prove_on_singleton_list() {
    let (d, k, y, y_inv, q, z_img, seed) = sample_witness();
    let p = Proof::prove(d, k, y, y_inv, q, z_img, seed, vec![Scalar::from(1u64)], 0, &TestGadget)
        .expect("proving failed");
    assert_eq!(p.commitments.len(), 4);
    assert_eq!(p.t_c.len(), 1);
}

#[test]
fn example_stream_first_record_is_proof_bytes() {
    let p = prove_sample(2);
    assert_eq!(p.commitments.len(), 4);
    assert_eq!(p.t_c.len(), 4);
    let proof_len = p.cs_proof.to_bytes().len() as u64;
    let stream = p.try_into_bytes().expect("encoding failed");
    assert_eq!(le8(&stream[0..8]), proof_len);
}

#[test]
fn two_proofs_differ_in_commitments_and_bytes() {
    let a = prove_sample(2);
    let b = prove_sample(2);
    assert_ne!(a.commitments[0].to_bytes(), b.commitments[0].to_bytes());
    assert_ne!(a.t_c[0].to_bytes(), b.t_c[0].to_bytes());
    assert_ne!(a.cs_proof.to_bytes(), b.cs_proof.to_bytes());
}

#[test]
fn encode_then_read_back_is_identical() {
    let p = prove_sample(1);
    let proof_bytes = p.cs_proof.to_bytes();
    let commitment_bytes: Vec<Vec<u8>> =
        p.commitments.iter().map(|c| c.to_bytes().to_vec()).collect();
    let toggle_bytes: Vec<Vec<u8>> = p.t_c.iter().map(|c| c.to_bytes().to_vec()).collect();
    let stream = p.try_into_bytes().expect("encoding failed");
    let (pb, cs, ts) = blindbid::read_encoded_proof(&stream).expect("reading back failed");
    assert_eq!(pb, proof_bytes);
    assert_eq!(cs, commitment_bytes);
    assert_eq!(ts, toggle_bytes);
    for c in &cs {
        assert_eq!(c.len(), 32);
    }
}

fn witness_stream(scalars: &[Scalar], list: &[Scalar], toggle: Option<u64>) -> Vec<u8> {
    let mut buf: Vec<u8> = Vec::new();
    for s in scalars {
        write_record(&mut buf, &s.to_bytes());
    }
    let elems: Vec<Vec<u8>> = list.iter().map(|s| s.to_bytes().to_vec()).collect();
    write_list(&mut buf, &elems);
    if let Some(t) = toggle {
        let t_bytes = u64_to_le8(t);
        write_record(&mut buf, &t_bytes);
    }
    buf
}

fn sample_scalars() -> Vec<Scalar> {
    let (d, k, y, y_inv, q, z_img, seed) = sample_witness();
    vec![d, k, y, y_inv, q, z_img, seed]
}

#[test]
fn decode_and_reprove_round() {
    let stream = witness_stream(&sample_scalars(), &sample_list(), Some(2));
    let p = Proof::decode_and_reprove(&stream, &TestGadget).expect("reproving failed");
    assert_eq!(p.commitments.len(), 4);
    assert_eq!(p.t_c.len(), 4);
}

#[test]
fn decode_through_reader() {
    let stream = witness_stream(&sample_scalars(), &sample_list(), Some(2));
    let p = Proof::try_from_reader_variables(stream.as_slice(), &TestGadget)
        .expect("reproving failed");
    assert_eq!(p.commitments.len(), 4);
}

#[test]
fn missing_toggle_record_is_truncation() {
    let stream = witness_stream(&sample_scalars(), &sample_list(), None);
    let r = Proof::decode_and_reprove(&stream, &TestGadget);
    assert!(matches!(r, Err(Error::UnexpectedEof)));
}

#[test]
fn missing_scalar_records_is_truncation() {
    let mut buf: Vec<u8> = Vec::new();
    for s in &sample_scalars()[0..3] {
        write_record(&mut buf, &s.to_bytes());
    }
    let r = Proof::decode_and_reprove(&buf, &TestGadget);
    assert!(matches!(r, Err(Error::UnexpectedEof)));
}

#[test]
fn toggle_past_list_end_still_proves() {
    let list = vec![Scalar::from(1u64), Scalar::from(2u64), Scalar::from(3u64)];
    let stream = witness_stream(&sample_scalars(), &list, Some(3));
    let p = Proof::decode_and_reprove(&stream, &TestGadget).expect("reproving failed");
    assert_eq!(p.commitments.len(), 4);
    assert_eq!(p.t_c.len(), 3);
}

#[test]
fn non_canonical_scalar_is_rejected() {
    let mut buf: Vec<u8> = Vec::new();
    write_record(&mut buf, &[0xffu8; 32]);
    let r = Proof::decode_and_reprove(&buf, &TestGadget);
    assert!(matches!(r, Err(Error::MalformedScalar)));
}

#[test]
fn wrong_width_scalar_is_rejected() {
    let mut buf: Vec<u8> = Vec::new();
    write_record(&mut buf, &[1u8; 31]);
    let r = Proof::decode_and_reprove(&buf, &TestGadget);
    assert!(matches!(r, Err(Error::MalformedScalar)));
}

#[test]
fn bad_scalar_inside_list_is_rejected() {
    let mut buf: Vec<u8> = Vec::new();
    for s in &sample_scalars() {
        write_record(&mut buf, &s.to_bytes());
    }
    let elems: Vec<Vec<u8>> = vec![Scalar::from(1u64).to_bytes().to_vec(), vec![0xffu8; 32]];
    write_list(&mut buf, &elems);
    write_record(&mut buf, &u64_to_le8(0));
    let r = Proof::decode_and_reprove(&buf, &TestGadget);
    assert!(matches!(r, Err(Error::MalformedScalar)));
}

#[test]
fn wide_integer_record_is_rejected() {
    let mut buf: Vec<u8> = Vec::new();
    for s in &sample_scalars() {
        write_record(&mut buf, &s.to_bytes());
    }
    write_list(&mut buf, &Vec::new());
    write_record(&mut buf, &[0u8; 9]);
    let r = Proof::decode_and_reprove(&buf, &TestGadget);
    assert!(matches!(r, Err(Error::MalformedInteger)));
}

#[test]
fn malformed_list_record_is_rejected() {
    let mut buf: Vec<u8> = Vec::new();
    for s in &sample_scalars() {
        write_record(&mut buf, &s.to_bytes());
    }
    // a list record whose payload is shorter than a count
    write_record(&mut buf, &[0u8; 3]);
    write_record(&mut buf, &u64_to_le8(0));
    let r = Proof::decode_and_reprove(&buf, &TestGadget);
    assert!(matches!(r, Err(Error::MalformedList)));
}

#[test]
fn empty_list_witness_stream_proves() {
    let stream = witness_stream(&sample_scalars(), &[], Some(0));
    let p = Proof::decode_and_reprove(&stream, &TestGadget).expect("reproving failed");
    assert_eq!(p.commitments.len(), 4);
    assert_eq!(p.t_c.len(), 0);
}

#[test]
fn scalar_record_format_matches_bincode() {
    // the wire's scalar payload is the scalar's canonical 32 bytes, the
    // same encoding bincode gives it
    let s = Scalar::from(123456789u64);
    let encoded = bincode::serialize(&s).expect("serialize failed");
    assert_eq!(encoded, s.to_bytes().to_vec());
    let decoded: Scalar = bincode::deserialize(&s.to_bytes()).expect("deserialize failed");
    assert_eq!(decoded, s);
}

#[test]
fn u64_le8_round_trip() {
    let v: u64 = 0x0102030405060708;
    let bytes = u64_to_le8(v);
    assert_eq!(bytes, vec![8, 7, 6, 5, 4, 3, 2, 1]);
    assert_eq!(blindbid::wire::le8_to_u64(&bytes), v);
}

#[test]
fn record_layout_is_length_then_payload() {
    let mut buf: Vec<u8> = Vec::new();
    write_record(&mut buf, &[9u8, 8, 7]);
    assert_eq!(buf, vec![3, 0, 0, 0, 0, 0, 0, 0, 9, 8, 7]);
}

#[test]
fn list_layout_is_count_then_records() {
    let mut buf: Vec<u8> = Vec::new();
    write_list(&mut buf, &vec![vec![5u8], vec![6u8, 7u8]]);
    let mut expected: Vec<u8> = Vec::new();
    // outer record: payload length 27 = 8 (count) + 9 (first) + 10 (second)
    expected.extend_from_slice(&[27, 0, 0, 0, 0, 0, 0, 0]);
    expected.extend_from_slice(&[2, 0, 0, 0, 0, 0, 0, 0]);
    expected.extend_from_slice(&[1, 0, 0, 0, 0, 0, 0, 0, 5]);
    expected.extend_from_slice(&[2, 0, 0, 0, 0, 0, 0, 0, 6, 7]);
    assert_eq!(buf, expected);
}

/// A reader that always fails.
struct BrokenReader;

impl std::io::Read for BrokenReader {
    fn read(&mut self, _buf: &mut [u8]) -> std::io::Result<usize> {
        Err(std::io::Error::new(std::io::ErrorKind::Other, "broken"))
    }
}

#[test]
fn failing_reader_reports_io() {
    let r = Proof::try_from_reader_variables(BrokenReader, &TestGadget);
    assert!(matches!(r, Err(Error::Io)));
}
