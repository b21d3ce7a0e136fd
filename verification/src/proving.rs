//! Commitment construction, prover orchestration and the proof codec.
//!
//! `Proof::prove` turns a witness, a public list and a toggle index into a
//! constraint-system proof: it commits each witness scalar and one boolean
//! indicator per list entry under fresh blinding, hands the committed
//! variables to a pluggable relation gadget, and finalizes the engine.
//! `Proof::try_into_bytes` serializes the finished proof as three
//! length-prefixed records; `decode_and_reprove` reads a witness bundle
//! from such a stream and runs the prover on it.

use bulletproofs::r1cs::R1CSError;
use bulletproofs::r1cs::R1CSProof;
use bulletproofs::r1cs::Variable;
use curve25519_dalek_ng::ristretto::CompressedRistretto;
use curve25519_dalek_ng::scalar::Scalar;
use vstd::prelude::*;

use crate::engine::cr_bytes;
use crate::engine::cr_to_bytes;
use crate::engine::group_order;
use crate::engine::pedersen;
use crate::engine::proof_to_bytes;
use crate::engine::r1cs_proof_bytes;
use crate::engine::read_all;
use crate::engine::scalar_bytes;
use crate::engine::scalar_from_canonical;
use crate::engine::scalar_from_u8;
use crate::engine::scalar_random;
use crate::engine::ProverSession;
use crate::wire::enc_list;
use crate::wire::enc_record;
use crate::wire::enc_records;
use crate::wire::le8_to_u64;
use crate::wire::le_val;
use crate::wire::lemma_parse_enc_list;
use crate::wire::lemma_parse_enc_record;
use crate::wire::parse_elems;
use crate::wire::parse_list_payload;
use crate::wire::parse_record;
use crate::wire::pow256;
use crate::wire::read_list;
use crate::wire::read_record;
use crate::wire::write_list;
use crate::wire::write_record;
use crate::wire::WireError;

verus! {

/// How many multiplication gates one proving session may use.
pub const GENS_CAPACITY: usize = 256;

/// The three terminal failures: the input stream ends before a record the
/// format requires, a record's bytes do not parse as the expected value,
/// or the constraint-system prover rejects.
#[derive(Debug)]
pub enum Error {
    /// The stream ended before a record that the format requires.
    UnexpectedEof,
    /// A scalar record is not a canonical 32-byte scalar encoding.
    MalformedScalar,
    /// A list record's payload does not have the shape of a list.
    MalformedList,
    /// An integer record is wider than 8 bytes or does not fit an index.
    MalformedInteger,
    /// Reading from the input source failed.
    Io,
    /// The constraint-system prover failed; the engine's error verbatim.
    Proving(R1CSError),
}

/// The relation over the committed variables and the public list.
///
/// The bid algebra and the one-hot toggle constraint are asserted by an
/// implementation of this trait against the session's constraint system;
/// the proving layer neither inspects nor duplicates that logic.  An
/// implementation brings its own domain constants.
pub trait RelationGadget {
    fn assert_relation(
        &self,
        cs: &mut ProverSession,
        d: Variable,
        k: Variable,
        y_inv: Variable,
        q: Scalar,
        z_img: Scalar,
        seed: Scalar,
        toggle_vars: Vec<Variable>,
        pub_list: &Vec<Scalar>,
    );
}

/// The indicator scalar for position `i` with the given toggle: one at
/// the toggle index, zero elsewhere.
pub open spec fn indicator(i: int, toggle: int) -> Scalar {
    if i == toggle {
        crate::engine::scalar_of_u8(1u8)
    } else {
        crate::engine::scalar_of_u8(0u8)
    }
}

/// Whether `c` is a Pedersen commitment to the value `v` under some
/// blinding scalar.
pub open spec fn commits_to(c: CompressedRistretto, v: Scalar) -> bool {
    exists|b: Scalar| cr_bytes(c) == pedersen(v, b)
}

/// A finished proof: the engine's proof bytes, one commitment per witness
/// scalar in the order d, k, y, y_inv, and one indicator commitment per
/// public-list entry, in list order.
#[derive(Debug)]
pub struct Proof {
    pub cs_proof: R1CSProof,
    pub commitments: Vec<CompressedRistretto>,
    pub t_c: Vec<CompressedRistretto>,
}

impl Proof {
    /// Assemble a proof from its three parts.
    pub fn new(
        cs_proof: R1CSProof,
        commitments: Vec<CompressedRistretto>,
        t_c: Vec<CompressedRistretto>,
    ) -> (r: Proof)
        ensures
            r.cs_proof == cs_proof,
            r.commitments == commitments,
            r.t_c == t_c,
    {
        Proof { cs_proof, commitments, t_c }
    }

    /// Prove the blind-bid statement.
    ///
    /// Commits d, k, y, y_inv in that order, then one indicator scalar per
    /// public-list entry: one at the toggle index, zero elsewhere, each
    /// under fresh random blinding.  The gadget asserts the relation; the
    /// engine's error, if any, is propagated verbatim.  A toggle at or
    /// past the list's end is caller error: every indicator is then zero,
    /// proving still runs, and the proof does not encode the intended
    /// selection.
    pub fn prove<G: RelationGadget>(
        d: Scalar,
        k: Scalar,
        y: Scalar,
        y_inv: Scalar,
        q: Scalar,
        z_img: Scalar,
        seed: Scalar,
        pub_list: Vec<Scalar>,
        toggle: usize,
        gadget: &G,
    ) -> (r: Result<Proof, Error>)
        ensures
            r is Ok ==> ({
                let p = r->Ok_0;
                &&& p.commitments@.len() == 4
                &&& p.t_c@.len() == pub_list@.len()
                &&& commits_to(p.commitments@[0], d)
                &&& commits_to(p.commitments@[1], k)
                &&& commits_to(p.commitments@[2], y)
                &&& commits_to(p.commitments@[3], y_inv)
                &&& forall|i: int|
                    0 <= i < pub_list@.len() ==> #[trigger] commits_to(
                        p.t_c@[i],
                        indicator(i, toggle as int),
                    )
            }),
            r is Err ==> r->Err_0 is Proving,
    {
        let mut session = ProverSession::new(GENS_CAPACITY);

        let b_d = scalar_random();
        let (c_d, v_d) = session.commit(d, b_d);
        let b_k = scalar_random();
        let (c_k, v_k) = session.commit(k, b_k);
        let b_y = scalar_random();
        let (c_y, v_y) = session.commit(y, b_y);
        let b_yi = scalar_random();
        let (c_yi, v_yi) = session.commit(y_inv, b_yi);

        let mut commitments: Vec<CompressedRistretto> = Vec::new();
        commitments.push(c_d);
        commitments.push(c_k);
        commitments.push(c_y);
        commitments.push(c_yi);

        let n = pub_list.len();
        let mut t_c: Vec<CompressedRistretto> = Vec::new();
        let mut t_v: Vec<Variable> = Vec::new();
        let mut i: usize = 0;
        while i < n
            invariant
                i <= n,
                t_c@.len() == i,
                t_v@.len() == i,
                forall|jj: int|
                    0 <= jj < i ==> #[trigger] commits_to(t_c@[jj], indicator(jj, toggle as int)),
            decreases n - i,
        {
            let ind: u8 = if i == toggle {
                1
            } else {
                0
            };
            let val = scalar_from_u8(ind);
            let bl = scalar_random();
            let (c, var) = session.commit(val, bl);
            proof {
                assert(val == indicator(i as int, toggle as int));
            }
            let ghost tc0 = t_c@;
            t_c.push(c);
            t_v.push(var);
            proof {
                assert(cr_bytes(t_c@[i as int]) == pedersen(indicator(i as int, toggle as int), bl));
                assert(commits_to(t_c@[i as int], indicator(i as int, toggle as int)));
                assert forall|jj: int|
                    0 <= jj < i + 1 implies #[trigger] commits_to(
                    t_c@[jj],
                    indicator(jj, toggle as int),
                ) by {
                    if jj < i {
                        assert(t_c@[jj] == tc0[jj]);
                        assert(commits_to(tc0[jj], indicator(jj, toggle as int)));
                    }
                }
            }
            i = i + 1;
        }

        gadget.assert_relation(&mut session, v_d, v_k, v_yi, q, z_img, seed, t_v, &pub_list);

        match session.finalize() {
            Ok(cs_proof) => Ok(Proof::new(cs_proof, commitments, t_c)),
            Err(e) => Err(Error::Proving(e)),
        }
    }
}

/// The bytes of a scalar record: exactly 32 bytes encoding an integer
/// below the group order.
pub open spec fn is_scalar_rec(p: Seq<u8>) -> bool {
    p.len() == 32 && le_val(p) < group_order()
}

/// The serialized form of a proof: one record of proof bytes, then the
/// commitment list, then the toggle-commitment list.
pub open spec fn proof_stream(pb: Seq<u8>, cs: Seq<Seq<u8>>, ts: Seq<Seq<u8>>) -> Seq<u8> {
    enc_record(pb) + enc_list(cs) + enc_list(ts)
}

/// Parse a proof stream back into its three fields; trailing bytes are
/// ignored.
pub open spec fn parse_proof_stream(s: Seq<u8>) -> Option<(Seq<u8>, Seq<Seq<u8>>, Seq<Seq<u8>>)> {
    match parse_record(s, 0) {
        None => None,
        Some((pb, p1)) => match parse_record(s, p1) {
            None => None,
            Some((lp1, p2)) => match parse_list_payload(lp1) {
                None => None,
                Some(cs) => match parse_record(s, p2) {
                    None => None,
                    Some((lp2, p3)) => match parse_list_payload(lp2) {
                        None => None,
                        Some(ts) => Some((pb, cs, ts)),
                    },
                },
            },
        },
    }
}

/// Law: a proof stream written by the encoder is read back by the generic
/// record reader as byte-identical proof bytes and commitment encodings.
pub proof fn lemma_proof_stream_round_trip(pb: Seq<u8>, cs: Seq<Seq<u8>>, ts: Seq<Seq<u8>>)
    requires
        pb.len() < pow256(8),
        forall|i: int| 0 <= i < cs.len() ==> #[trigger] cs[i].len() < pow256(8),
        forall|i: int| 0 <= i < ts.len() ==> #[trigger] ts[i].len() < pow256(8),
        cs.len() < pow256(8),
        ts.len() < pow256(8),
        8 + enc_records(cs).len() < pow256(8),
        8 + enc_records(ts).len() < pow256(8),
    ensures
        parse_proof_stream(proof_stream(pb, cs, ts)) == Some((pb, cs, ts)),
{
    let s = proof_stream(pb, cs, ts);
    assert(s =~= Seq::<u8>::empty() + enc_record(pb) + (enc_list(cs) + enc_list(ts)));
    lemma_parse_enc_record(Seq::<u8>::empty(), pb, enc_list(cs) + enc_list(ts));
    assert(parse_record(s, 0) == Some((pb, 8 + pb.len() as int)));
    crate::wire::lemma_le_bytes_len(pb.len(), 8);
    assert(enc_record(pb).len() == 8 + pb.len());
    assert(s =~= enc_record(pb) + enc_list(cs) + enc_list(ts));
    lemma_parse_enc_list(enc_record(pb), cs, enc_list(ts));
    assert(s =~= (enc_record(pb) + enc_list(cs)) + enc_list(ts) + Seq::<u8>::empty());
    lemma_parse_enc_list(enc_record(pb) + enc_list(cs), ts, Seq::<u8>::empty());
}

/// Records of 32-byte payloads take 40 bytes each on the wire.
pub proof fn lemma_enc_records_len_32(es: Seq<Seq<u8>>)
    requires
        forall|i: int| 0 <= i < es.len() ==> #[trigger] es[i].len() == 32,
    ensures
        enc_records(es).len() == 40 * es.len(),
    decreases es.len(),
{
    if es.len() > 0 {
        assert(forall|i: int|
            0 <= i < es.drop_first().len() ==> #[trigger] es.drop_first()[i].len() == 32);
        lemma_enc_records_len_32(es.drop_first());
        crate::wire::lemma_le_bytes_len(es[0].len(), 8);
    }
}

/// Law: the round trip for finished proofs.  A stream carrying proof
/// bytes and two lists of 32-byte commitment encodings reads back
/// byte-identical, for any proof-byte length and any list lengths the
/// wire can carry.
pub proof fn lemma_commitment_stream_round_trip(pb: Seq<u8>, cs: Seq<Seq<u8>>, ts: Seq<Seq<u8>>)
    requires
        pb.len() < pow256(8),
        forall|i: int| 0 <= i < cs.len() ==> #[trigger] cs[i].len() == 32,
        forall|i: int| 0 <= i < ts.len() ==> #[trigger] ts[i].len() == 32,
        cs.len() <= 0xffffffff,
        ts.len() <= 0xffffffff,
    ensures
        parse_proof_stream(proof_stream(pb, cs, ts)) == Some((pb, cs, ts)),
{
    lemma_enc_records_len_32(cs);
    lemma_enc_records_len_32(ts);
    assert(pow256(8) == 0x10000000000000000) by {
        reveal_with_fuel(pow256, 9);
    };
    lemma_proof_stream_round_trip(pb, cs, ts);
}

impl Proof {
    /// Serialize the proof: proof bytes, the four commitments, then the
    /// toggle commitments, each 32 bytes, all length-prefixed.
    pub fn try_into_bytes(self) -> (r: Result<Vec<u8>, Error>)
        ensures
            r is Ok,
            r->Ok_0@ == proof_stream(
                r1cs_proof_bytes(self.cs_proof),
                self.commitments@.map_values(|c: CompressedRistretto| cr_bytes(c)),
                self.t_c@.map_values(|c: CompressedRistretto| cr_bytes(c)),
            ),
    {
        let mut buf: Vec<u8> = Vec::new();
        let pb = proof_to_bytes(&self.cs_proof);
        write_record(&mut buf, pb.as_slice());
        let cb = compress_all(&self.commitments);
        write_list(&mut buf, &cb);
        let tb = compress_all(&self.t_c);
        write_list(&mut buf, &tb);
        proof {
            assert(buf@ =~= enc_record(pb@) + enc_list(
                self.commitments@.map_values(|c: CompressedRistretto| cr_bytes(c)),
            ) + enc_list(self.t_c@.map_values(|c: CompressedRistretto| cr_bytes(c))));
        }
        Ok(buf)
    }
}

/// The 32-byte encoding of each commitment, in order.
fn compress_all(cs: &Vec<CompressedRistretto>) -> (r: Vec<Vec<u8>>)
    ensures
        r@.map_values(|e: Vec<u8>| e@) == cs@.map_values(|c: CompressedRistretto| cr_bytes(c)),
{
    let mut r: Vec<Vec<u8>> = Vec::new();
    let n = cs.len();
    let mut i: usize = 0;
    while i < n
        invariant
            i <= n,
            n == cs@.len(),
            r@.len() == i,
            r@.map_values(|e: Vec<u8>| e@) =~= cs@.subrange(0, i as int).map_values(
                |c: CompressedRistretto| cr_bytes(c),
            ),
        decreases n - i,
    {
        let b = cr_to_bytes(&cs[i]);
        let ghost r0 = r@;
        r.push(b);
        proof {
            assert(r@.map_values(|e: Vec<u8>| e@) =~= r0.map_values(|e: Vec<u8>| e@).push(b@));
            assert(cs@.subrange(0, i + 1).map_values(|c: CompressedRistretto| cr_bytes(c))
                =~= cs@.subrange(0, i as int).map_values(|c: CompressedRistretto| cr_bytes(c)).push(
                cr_bytes(cs@[i as int]),
            ));
        }
        i = i + 1;
    }
    proof {
        assert(cs@.subrange(0, n as int) =~= cs@);
        assert(r@.map_values(|e: Vec<u8>| e@) =~= cs@.map_values(
            |c: CompressedRistretto| cr_bytes(c),
        ));
    }
    r
}

/// Read the three fields of a serialized proof back: the proof bytes, the
/// commitment encodings and the toggle-commitment encodings.
pub fn read_encoded_proof(s: &[u8]) -> (r: Result<(Vec<u8>, Vec<Vec<u8>>, Vec<Vec<u8>>), Error>)
    ensures
        r is Ok ==> parse_proof_stream(s@) == Some(
            (
                r->Ok_0.0@,
                r->Ok_0.1@.map_values(|e: Vec<u8>| e@),
                r->Ok_0.2@.map_values(|e: Vec<u8>| e@),
            ),
        ),
        r is Err ==> parse_proof_stream(s@) is None,
        r is Err ==> (r->Err_0 is UnexpectedEof || r->Err_0 is MalformedList),
{
    let (pb, p1) = match read_record(s, 0) {
        None => {
            return Err(Error::UnexpectedEof);
        },
        Some(x) => x,
    };
    let (cs, p2) = match read_list(s, p1) {
        Err(WireError::Truncated) => {
            return Err(Error::UnexpectedEof);
        },
        Err(WireError::Malformed) => {
            return Err(Error::MalformedList);
        },
        Ok(x) => x,
    };
    let (ts, _p3) = match read_list(s, p2) {
        Err(WireError::Truncated) => {
            return Err(Error::UnexpectedEof);
        },
        Err(WireError::Malformed) => {
            return Err(Error::MalformedList);
        },
        Ok(x) => x,
    };
    Ok((pb, cs, ts))
}

/// Walk `k` scalar records from `pos`, reporting the first fault the way
/// the decoder meets it: a missing record before a malformed one.
pub open spec fn scalar_chain_fault(s: Seq<u8>, pos: int, k: nat) -> Option<Error>
    decreases k,
{
    if k == 0 {
        None
    } else {
        match parse_record(s, pos) {
            None => Some(Error::UnexpectedEof),
            Some((p, next)) => if !is_scalar_rec(p) {
                Some(Error::MalformedScalar)
            } else {
                scalar_chain_fault(s, next, (k - 1) as nat)
            },
        }
    }
}

/// The first fault of a witness stream, or `None` when all nine records
/// decode: seven scalars, the public list, the toggle index.
pub open spec fn witness_fault(s: Seq<u8>) -> Option<Error> {
    if scalar_chain_fault(s, 0, 7) is Some {
        scalar_chain_fault(s, 0, 7)
    } else {
        let p7 = parse_elems(s, 0, 7)->Some_0.1;
        match parse_record(s, p7) {
            None => Some(Error::UnexpectedEof),
            Some((lp, p8)) => match parse_list_payload(lp) {
                None => Some(Error::MalformedList),
                Some(elems) => if exists|i: int|
                    0 <= i < elems.len() && !is_scalar_rec(#[trigger] elems[i]) {
                    Some(Error::MalformedScalar)
                } else {
                    match parse_record(s, p8) {
                        None => Some(Error::UnexpectedEof),
                        Some((ip, p9)) => if ip.len() > 8 {
                            Some(Error::MalformedInteger)
                        } else if le_val(ip) > usize::MAX as nat {
                            Some(Error::MalformedInteger)
                        } else {
                            None
                        },
                    }
                },
            },
        }
    }
}

/// A decoded witness bundle: the seven private scalars, the public list
/// and the toggle index.
pub struct WitnessBundle {
    pub d: Scalar,
    pub k: Scalar,
    pub y: Scalar,
    pub y_inv: Scalar,
    pub q: Scalar,
    pub z_img: Scalar,
    pub seed: Scalar,
    pub pub_list: Vec<Scalar>,
    pub toggle: usize,
}

/// Decode a witness bundle from a byte stream: seven scalar records in
/// the order d, k, y, y_inv, q, z_img, seed, then a list of scalar
/// records, then an unsigned integer record.  Trailing bytes are ignored.
pub fn parse_witness_bundle(s: &[u8]) -> (r: Result<WitnessBundle, Error>)
    ensures
        r is Err <==> witness_fault(s@) is Some,
        r is Err ==> r->Err_0 == witness_fault(s@)->Some_0,
        r is Ok ==> ({
            let w = r->Ok_0;
            let recs = parse_elems(s@, 0, 7)->Some_0.0;
            let p7 = parse_elems(s@, 0, 7)->Some_0.1;
            let lp = parse_record(s@, p7)->Some_0.0;
            let p8 = parse_record(s@, p7)->Some_0.1;
            let elems = parse_list_payload(lp)->Some_0;
            let ip = parse_record(s@, p8)->Some_0.0;
            &&& parse_elems(s@, 0, 7) is Some
            &&& scalar_bytes(w.d) == recs[0]
            &&& scalar_bytes(w.k) == recs[1]
            &&& scalar_bytes(w.y) == recs[2]
            &&& scalar_bytes(w.y_inv) == recs[3]
            &&& scalar_bytes(w.q) == recs[4]
            &&& scalar_bytes(w.z_img) == recs[5]
            &&& scalar_bytes(w.seed) == recs[6]
            &&& w.pub_list@.len() == elems.len()
            &&& forall|i: int|
                0 <= i < elems.len() ==> scalar_bytes(#[trigger] w.pub_list@[i]) == elems[i]
            &&& w.toggle as nat == le_val(ip)
        }),
{
    let mut scalars: Vec<Scalar> = Vec::new();
    let ghost mut recs: Seq<Seq<u8>> = Seq::empty();
    let mut pos: usize = 0;
    let mut j: usize = 0;
    proof {
        assert(recs + parse_elems(s@, 0, 7)->Some_0.0 =~= parse_elems(s@, 0, 7)->Some_0.0);
    }
    while j < 7
        invariant
            j <= 7,
            pos <= s@.len(),
            scalars@.len() == j,
            recs.len() == j,
            forall|t: int|
                0 <= t < j ==> is_scalar_rec(#[trigger] recs[t]) && scalar_bytes(scalars@[t])
                    == recs[t],
            scalar_chain_fault(s@, 0, 7) == scalar_chain_fault(s@, pos as int, (7 - j) as nat),
            match parse_elems(s@, pos as int, (7 - j) as nat) {
                None => parse_elems(s@, 0, 7) is None,
                Some((rest, end)) => parse_elems(s@, 0, 7) == Some((recs + rest, end)),
            },
        decreases 7 - j,
    {
        match read_record(s, pos) {
            None => {
                proof {
                    assert(scalar_chain_fault(s@, pos as int, (7 - j) as nat) == Some(
                        Error::UnexpectedEof,
                    ));
                }
                return Err(Error::UnexpectedEof);
            },
            Some((p, pos2)) => {
                if p.len() != 32 {
                    proof {
                        assert(scalar_chain_fault(s@, pos as int, (7 - j) as nat) == Some(
                            Error::MalformedScalar,
                        ));
                    }
                    return Err(Error::MalformedScalar);
                }
                match scalar_from_canonical(p.as_slice()) {
                    None => {
                        proof {
                            assert(!is_scalar_rec(p@));
                            assert(scalar_chain_fault(s@, pos as int, (7 - j) as nat) == Some(
                                Error::MalformedScalar,
                            ));
                        }
                        return Err(Error::MalformedScalar);
                    },
                    Some(sc) => {
                        proof {
                            let kk = (7 - j) as nat;
                            assert(is_scalar_rec(p@));
                            assert(scalar_chain_fault(s@, pos as int, kk) == scalar_chain_fault(
                                s@,
                                pos2 as int,
                                (kk - 1) as nat,
                            ));
                            assert(parse_elems(s@, pos as int, kk) == match parse_elems(
                                s@,
                                pos2 as int,
                                (kk - 1) as nat,
                            ) {
                                None => None::<(Seq<Seq<u8>>, int)>,
                                Some((rest, end)) => Some((seq![p@] + rest, end)),
                            });
                            if parse_elems(s@, pos2 as int, (kk - 1) as nat) is Some {
                                let rest = parse_elems(s@, pos2 as int, (kk - 1) as nat)->Some_0.0;
                                assert(recs + (seq![p@] + rest) =~= (recs.push(p@)) + rest);
                            }
                        }
                        scalars.push(sc);
                        proof {
                            recs = recs.push(p@);
                        }
                        pos = pos2;
                        j = j + 1;
                    },
                }
            },
        }
    }
    proof {
        assert(parse_elems(s@, pos as int, 0) == Some((Seq::<Seq<u8>>::empty(), pos as int)));
        assert(recs + Seq::<Seq<u8>>::empty() =~= recs);
        assert(parse_elems(s@, 0, 7) == Some((recs, pos as int)));
        assert(scalar_chain_fault(s@, 0, 7) is None);
    }
    let seed = scalars.pop().unwrap();
    let z_img = scalars.pop().unwrap();
    let q = scalars.pop().unwrap();
    let y_inv = scalars.pop().unwrap();
    let y = scalars.pop().unwrap();
    let k = scalars.pop().unwrap();
    let d = scalars.pop().unwrap();

    let (elem_bytes, pos2) = match read_list(s, pos) {
        Err(WireError::Truncated) => {
            return Err(Error::UnexpectedEof);
        },
        Err(WireError::Malformed) => {
            return Err(Error::MalformedList);
        },
        Ok(x) => x,
    };
    let ghost elems = parse_list_payload(parse_record(s@, pos as int)->Some_0.0)->Some_0;

    let mut pub_list: Vec<Scalar> = Vec::new();
    let ne = elem_bytes.len();
    let mut ei: usize = 0;
    while ei < ne
        invariant
            ei <= ne,
            ne == elem_bytes@.len(),
            elems == elem_bytes@.map_values(|e: Vec<u8>| e@),
            elems.len() == ne,
            pub_list@.len() == ei,
            pos <= s@.len(),
            scalar_chain_fault(s@, 0, 7) is None,
            parse_elems(s@, 0, 7) is Some,
            parse_elems(s@, 0, 7)->Some_0.1 == pos as int,
            parse_record(s@, pos as int) is Some,
            parse_list_payload(parse_record(s@, pos as int)->Some_0.0) == Some(elems),
            forall|t: int|
                0 <= t < ei ==> is_scalar_rec(#[trigger] elems[t]) && scalar_bytes(pub_list@[t])
                    == elems[t],
        decreases ne - ei,
    {
        let e = &elem_bytes[ei];
        proof {
            assert(elems[ei as int] == e@);
        }
        if e.len() != 32 {
            proof {
                assert(!is_scalar_rec(elems[ei as int]));
            }
            return Err(Error::MalformedScalar);
        }
        match scalar_from_canonical(e.as_slice()) {
            None => {
                proof {
                    assert(!is_scalar_rec(elems[ei as int]));
                }
                return Err(Error::MalformedScalar);
            },
            Some(sc) => {
                pub_list.push(sc);
            },
        }
        ei = ei + 1;
    }

    let (ip, _pos3) = match read_record(s, pos2) {
        None => {
            return Err(Error::UnexpectedEof);
        },
        Some(x) => x,
    };
    if ip.len() > 8 {
        return Err(Error::MalformedInteger);
    }
    let v = le8_to_u64(ip.as_slice());
    if v > usize::MAX as u64 {
        return Err(Error::MalformedInteger);
    }
    let toggle = v as usize;

    Ok(WitnessBundle { d, k, y, y_inv, q, z_img, seed, pub_list, toggle })
}

impl Proof {
    /// Decode a witness bundle from `s` and run the prover on it: the
    /// returned proof is freshly generated, not read from the stream.
    pub fn decode_and_reprove<G: RelationGadget>(s: &[u8], gadget: &G) -> (r: Result<Proof, Error>)
        ensures
            witness_fault(s@) is Some ==> r is Err && r->Err_0 == witness_fault(s@)->Some_0,
            r is Err ==> (witness_fault(s@) is Some || r->Err_0 is Proving),
            r is Ok ==> r->Ok_0.commitments@.len() == 4,
            r is Ok ==> ({
                let p7 = parse_elems(s@, 0, 7)->Some_0.1;
                let lp = parse_record(s@, p7)->Some_0.0;
                let p8 = parse_record(s@, p7)->Some_0.1;
                let ip = parse_record(s@, p8)->Some_0.0;
                &&& r->Ok_0.t_c@.len() == parse_list_payload(lp)->Some_0.len()
                &&& forall|i: int|
                    0 <= i < r->Ok_0.t_c@.len() ==> #[trigger] commits_to(
                        r->Ok_0.t_c@[i],
                        indicator(i, le_val(ip) as int),
                    )
            }),
    {
        match parse_witness_bundle(s) {
            Err(e) => Err(e),
            Ok(w) => Proof::prove(
                w.d,
                w.k,
                w.y,
                w.y_inv,
                w.q,
                w.z_img,
                w.seed,
                w.pub_list,
                w.toggle,
                gadget,
            ),
        }
    }

    /// Read a whole stream from `reader`, decode a witness bundle from it
    /// and run the prover on it.
    pub fn try_from_reader_variables<R: std::io::Read, G: RelationGadget>(reader: R, gadget: &G)
        -> (r: Result<Proof, Error>)
        ensures
            r is Ok ==> r->Ok_0.commitments@.len() == 4,
    {
        match read_all(reader) {
            None => Err(Error::Io),
            Some(bytes) => Proof::decode_and_reprove(bytes.as_slice(), gadget),
        }
    }
}

} // verus!
