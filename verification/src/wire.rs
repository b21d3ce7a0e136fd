//! Length-prefixed (tag-length-value style) wire format.
//!
//! Every record on the wire is an 8-byte little-endian length prefix
//! followed by that many payload bytes.  A list record is a record whose
//! payload is an 8-byte little-endian element count followed by each
//! element as a record of its own.  The spec functions here define the
//! format over byte sequences; the executable functions are proved to
//! write and read exactly that format.

use vstd::arithmetic::div_mod::lemma_fundamental_div_mod;
use vstd::prelude::*;

verus! {

/// The little-endian bytes of `n`, exactly `k` of them (`n` taken modulo 256^k).
pub open spec fn le_bytes(n: nat, k: nat) -> Seq<u8>
    decreases k,
{
    if k == 0 {
        Seq::empty()
    } else {
        seq![(n % 256) as u8] + le_bytes(n / 256, (k - 1) as nat)
    }
}

/// The value of a little-endian byte sequence.
pub open spec fn le_val(s: Seq<u8>) -> nat
    decreases s.len(),
{
    if s.len() == 0 {
        0
    } else {
        s[0] as nat + 256 * le_val(s.drop_first())
    }
}

/// 256 to the power `k`.
pub open spec fn pow256(k: nat) -> nat
    decreases k,
{
    if k == 0 {
        1
    } else {
        256 * pow256((k - 1) as nat)
    }
}

pub proof fn lemma_le_bytes_len(n: nat, k: nat)
    ensures
        le_bytes(n, k).len() == k,
    decreases k,
{
    if k > 0 {
        lemma_le_bytes_len(n / 256, (k - 1) as nat);
    }
}

pub proof fn lemma_pow256_mono(a: nat, b: nat)
    requires
        a <= b,
    ensures
        pow256(a) <= pow256(b),
    decreases b,
{
    if a < b && b > 0 {
        lemma_pow256_mono(a, (b - 1) as nat);
    }
}

/// A little-endian byte sequence of length `k` has a value below 256^k.
pub proof fn lemma_le_val_bound(s: Seq<u8>)
    ensures
        le_val(s) < pow256(s.len()),
    decreases s.len(),
{
    if s.len() > 0 {
        lemma_le_val_bound(s.drop_first());
    }
}

/// Writing a value below 256^k as `k` little-endian bytes and reading it
/// back yields the value again.
pub proof fn lemma_le_val_le_bytes(n: nat, k: nat)
    requires
        n < pow256(k),
    ensures
        le_val(le_bytes(n, k)) == n,
    decreases k,
{
    if k > 0 {
        assert(n < 256 * pow256((k - 1) as nat));
        assert(n / 256 < pow256((k - 1) as nat)) by {
            lemma_fundamental_div_mod(n as int, 256);
        };
        lemma_le_val_le_bytes(n / 256, (k - 1) as nat);
        let s = le_bytes(n, k);
        assert(s.drop_first() =~= le_bytes(n / 256, (k - 1) as nat));
        assert(le_val(s) == n % 256 + 256 * (n / 256));
        assert(n % 256 + 256 * (n / 256) == n) by {
            lemma_fundamental_div_mod(n as int, 256);
        };
    }
}

/// Write `x` as its 8 little-endian bytes.
pub fn u64_to_le8(x: u64) -> (out: Vec<u8>)
    ensures
        out@ == le_bytes(x as nat, 8),
        out@.len() == 8,
{
    let mut out: Vec<u8> = Vec::new();
    let mut v: u64 = x;
    let mut i: usize = 0;
    proof {
        lemma_le_bytes_len(x as nat, 8);
    }
    while i < 8
        invariant
            i <= 8,
            out@.len() == i,
            le_bytes(x as nat, 8) == out@ + le_bytes(v as nat, (8 - i) as nat),
        decreases 8 - i,
    {
        let b: u8 = (v % 256) as u8;
        proof {
            assert(le_bytes(v as nat, (8 - i) as nat) == seq![b] + le_bytes(
                v as nat / 256,
                (8 - i - 1) as nat,
            ));
            assert(out@ + le_bytes(v as nat, (8 - i) as nat) =~= (out@ + seq![b]) + le_bytes(
                v as nat / 256,
                (8 - i - 1) as nat,
            ));
        }
        out.push(b);
        v = v / 256;
        i = i + 1;
    }
    proof {
        assert(le_bytes(v as nat, 0) =~= Seq::<u8>::empty());
        assert(le_bytes(x as nat, 8) =~= out@);
    }
    out
}

/// Read the value of a little-endian byte slice of at most 8 bytes.
pub fn le8_to_u64(s: &[u8]) -> (x: u64)
    requires
        s@.len() <= 8,
    ensures
        x as nat == le_val(s@),
{
    let n = s.len();
    let mut x: u64 = 0;
    let mut i: usize = n;
    proof {
        assert(s@.subrange(n as int, n as int) =~= Seq::<u8>::empty());
    }
    while i > 0
        invariant
            i <= n,
            n == s@.len(),
            n <= 8,
            x as nat == le_val(s@.subrange(i as int, n as int)),
        decreases i,
    {
        let ghost tail = s@.subrange(i as int, n as int);
        proof {
            lemma_le_val_bound(tail);
            lemma_pow256_mono(tail.len(), 7);
            assert(pow256(7) == 0x100000000000000) by {
                reveal_with_fuel(pow256, 8);
            };
            let head = s@.subrange(i - 1, n as int);
            assert(head.drop_first() =~= tail);
            assert(le_val(head) == head[0] as nat + 256 * le_val(tail));
        }
        let b = *vstd::slice::slice_index_get(s, i - 1);
        x = x * 256 + b as u64;
        i = i - 1;
    }
    proof {
        assert(s@.subrange(0, n as int) =~= s@);
    }
    x
}

/// Why a read of the wire failed: the stream ended before the record did,
/// or a list record's payload does not have the shape of a list.
#[derive(Clone, Copy, Debug, PartialEq, Eq, Structural)]
pub enum WireError {
    Truncated,
    Malformed,
}

/// A record: 8 little-endian length bytes, then the payload.
pub open spec fn enc_record(p: Seq<u8>) -> Seq<u8> {
    le_bytes(p.len(), 8) + p
}

/// The concatenation of one record per element.
pub open spec fn enc_records(elems: Seq<Seq<u8>>) -> Seq<u8>
    decreases elems.len(),
{
    if elems.len() == 0 {
        Seq::empty()
    } else {
        enc_record(elems[0]) + enc_records(elems.drop_first())
    }
}

/// A list record: 8 little-endian count bytes, then one record per element,
/// all wrapped in a record of their own.
pub open spec fn enc_list(elems: Seq<Seq<u8>>) -> Seq<u8> {
    enc_record(le_bytes(elems.len(), 8) + enc_records(elems))
}

/// Parse one record at `pos`: its payload and the position just after it.
pub open spec fn parse_record(s: Seq<u8>, pos: int) -> Option<(Seq<u8>, int)> {
    if 0 <= pos && pos + 8 <= s.len() {
        let n = le_val(s.subrange(pos, pos + 8)) as int;
        if pos + 8 + n <= s.len() {
            Some((s.subrange(pos + 8, pos + 8 + n), pos + 8 + n))
        } else {
            None
        }
    } else {
        None
    }
}

/// Parse exactly `k` consecutive records starting at `pos`.
pub open spec fn parse_elems(s: Seq<u8>, pos: int, k: nat) -> Option<(Seq<Seq<u8>>, int)>
    decreases k,
{
    if k == 0 {
        Some((Seq::empty(), pos))
    } else {
        match parse_record(s, pos) {
            None => None,
            Some((e, next)) => match parse_elems(s, next, (k - 1) as nat) {
                None => None,
                Some((rest, end)) => Some((seq![e] + rest, end)),
            },
        }
    }
}

/// Parse a list record's payload: count, then exactly that many records,
/// consuming the payload exactly.
pub open spec fn parse_list_payload(p: Seq<u8>) -> Option<Seq<Seq<u8>>> {
    if p.len() >= 8 {
        let count = le_val(p.subrange(0, 8));
        match parse_elems(p, 8, count) {
            Some((elems, end)) => if end == p.len() {
                Some(elems)
            } else {
                None
            },
            None => None,
        }
    } else {
        None
    }
}

/// Law: a record written anywhere in a stream is read back as the same
/// payload, whatever stands before and after it.
pub proof fn lemma_parse_enc_record(pre: Seq<u8>, p: Seq<u8>, post: Seq<u8>)
    requires
        p.len() < pow256(8),
    ensures
        parse_record(pre + enc_record(p) + post, pre.len() as int) == Some(
            (p, (pre.len() + 8 + p.len()) as int),
        ),
{
    let s = pre + enc_record(p) + post;
    lemma_le_bytes_len(p.len(), 8);
    assert(s.subrange(pre.len() as int, pre.len() as int + 8) =~= le_bytes(p.len(), 8));
    lemma_le_val_le_bytes(p.len(), 8);
    assert(s.subrange(pre.len() as int + 8, pre.len() as int + 8 + p.len() as int) =~= p);
}

pub proof fn lemma_enc_records_push(es: Seq<Seq<u8>>, e: Seq<u8>)
    ensures
        enc_records(es.push(e)) == enc_records(es) + enc_record(e),
    decreases es.len(),
{
    if es.len() == 0 {
        assert(es.push(e)[0] == e);
        assert(es.push(e).drop_first() =~= Seq::<Seq<u8>>::empty());
        assert(enc_records(es.push(e)) == enc_record(e) + enc_records(es.push(e).drop_first()));
        assert(enc_records(Seq::<Seq<u8>>::empty()) == Seq::<u8>::empty());
        assert(enc_records(es) == Seq::<u8>::empty());
        assert(enc_record(e) + Seq::<u8>::empty() =~= Seq::<u8>::empty() + enc_record(e));
    } else {
        assert(es.push(e).drop_first() =~= es.drop_first().push(e));
        lemma_enc_records_push(es.drop_first(), e);
        assert(es.push(e)[0] == es[0]);
        assert(enc_records(es.push(e)) == enc_record(es[0]) + enc_records(es.push(e).drop_first()));
        assert(enc_records(es.push(e).drop_first()) == enc_records(es.drop_first()) + enc_record(e));
        assert(enc_record(es[0]) + (enc_records(es.drop_first()) + enc_record(e)) =~= (enc_record(
            es[0],
        ) + enc_records(es.drop_first())) + enc_record(e));
        assert(enc_records(es) + enc_record(e) == (enc_record(es[0]) + enc_records(es.drop_first()))
            + enc_record(e));
    }
}

/// Law: `k` records written back to back are read back as the same `k`
/// payloads, whatever stands before and after them.
pub proof fn lemma_parse_enc_records(pre: Seq<u8>, elems: Seq<Seq<u8>>, post: Seq<u8>)
    requires
        forall|i: int| 0 <= i < elems.len() ==> #[trigger] elems[i].len() < pow256(8),
    ensures
        parse_elems(pre + enc_records(elems) + post, pre.len() as int, elems.len()) == Some(
            (elems, (pre.len() + enc_records(elems).len()) as int),
        ),
    decreases elems.len(),
{
    let s = pre + enc_records(elems) + post;
    if elems.len() == 0 {
        assert(enc_records(elems) =~= Seq::<u8>::empty());
        assert(Seq::<Seq<u8>>::empty() =~= elems);
    } else {
        let e0 = elems[0];
        let rest = elems.drop_first();
        assert(s =~= pre + enc_record(e0) + (enc_records(rest) + post));
        lemma_parse_enc_record(pre, e0, enc_records(rest) + post);
        let pre2 = pre + enc_record(e0);
        assert(s =~= pre2 + enc_records(rest) + post);
        lemma_parse_enc_records(pre2, rest, post);
        assert(seq![e0] + rest =~= elems);
        lemma_le_bytes_len(e0.len(), 8);
        assert(enc_records(elems).len() == enc_record(e0).len() + enc_records(rest).len());
    }
}

/// Law: a list payload built from elements parses back to those elements.
pub proof fn lemma_list_payload_parses(elems: Seq<Seq<u8>>)
    requires
        forall|i: int| 0 <= i < elems.len() ==> #[trigger] elems[i].len() < pow256(8),
        elems.len() < pow256(8),
    ensures
        parse_list_payload(le_bytes(elems.len(), 8) + enc_records(elems)) == Some(elems),
{
    let payload = le_bytes(elems.len(), 8) + enc_records(elems);
    lemma_le_bytes_len(elems.len(), 8);
    assert(payload.subrange(0, 8) =~= le_bytes(elems.len(), 8));
    lemma_le_val_le_bytes(elems.len(), 8);
    assert(le_val(payload.subrange(0, 8)) == elems.len());
    lemma_parse_enc_records(le_bytes(elems.len(), 8), elems, Seq::empty());
    assert(le_bytes(elems.len(), 8) + enc_records(elems) + Seq::<u8>::empty() =~= payload);
    assert(parse_elems(payload, 8, elems.len()) == Some((elems, payload.len() as int)));
}

/// Law: a list written anywhere in a stream is read back as the same
/// elements, whatever stands before and after it.
pub proof fn lemma_parse_enc_list(pre: Seq<u8>, elems: Seq<Seq<u8>>, post: Seq<u8>)
    requires
        forall|i: int| 0 <= i < elems.len() ==> #[trigger] elems[i].len() < pow256(8),
        elems.len() < pow256(8),
        8 + enc_records(elems).len() < pow256(8),
    ensures
        ({
            let r = parse_record(pre + enc_list(elems) + post, pre.len() as int);
            &&& r is Some
            &&& parse_list_payload(r->Some_0.0) == Some(elems)
            &&& r->Some_0.1 == pre.len() + enc_list(elems).len()
        }),
{
    let payload = le_bytes(elems.len(), 8) + enc_records(elems);
    lemma_le_bytes_len(elems.len(), 8);
    assert(payload.len() < pow256(8));
    lemma_parse_enc_record(pre, payload, post);
    lemma_list_payload_parses(elems);
    lemma_le_bytes_len(payload.len(), 8);
    assert(enc_list(elems) == enc_record(payload));
    assert(enc_list(elems).len() == 8 + payload.len());
    assert(parse_record(pre + enc_list(elems) + post, pre.len() as int) == Some(
        (payload, (pre.len() + 8 + payload.len()) as int),
    ));
}

/// Append a slice to a buffer.
pub fn append_bytes(buf: &mut Vec<u8>, s: &[u8])
    ensures
        final(buf)@ == old(buf)@ + s@,
{
    let n = s.len();
    let mut i: usize = 0;
    while i < n
        invariant
            i <= n,
            n == s@.len(),
            buf@ == old(buf)@ + s@.take(i as int),
        decreases n - i,
    {
        let b = *vstd::slice::slice_index_get(s, i);
        proof {
            assert(s@.take(i + 1) =~= s@.take(i as int) + seq![s@[i as int]]);
            assert(old(buf)@ + s@.take(i + 1) =~= (old(buf)@ + s@.take(i as int)) + seq![
                s@[i as int]
            ]);
        }
        buf.push(b);
        i = i + 1;
    }
    proof {
        assert(s@.take(n as int) =~= s@);
    }
}

/// Write one record: the payload's length as 8 little-endian bytes, then
/// the payload.
pub fn write_record(buf: &mut Vec<u8>, payload: &[u8])
    ensures
        final(buf)@ == old(buf)@ + enc_record(payload@),
{
    let len_bytes = u64_to_le8(payload.len() as u64);
    append_bytes(buf, len_bytes.as_slice());
    append_bytes(buf, payload);
    proof {
        assert((old(buf)@ + le_bytes(payload@.len(), 8)) + payload@ =~= old(buf)@ + enc_record(
            payload@,
        ));
    }
}

/// Read one record at `pos`; `None` means the stream ends too early.
pub fn read_record(s: &[u8], pos: usize) -> (r: Option<(Vec<u8>, usize)>)
    requires
        pos <= s@.len(),
    ensures
        match r {
            Some((payload, next)) => {
                &&& parse_record(s@, pos as int) == Some((payload@, next as int))
                &&& next <= s@.len()
            },
            None => parse_record(s@, pos as int) is None,
        },
{
    if s.len() - pos < 8 {
        return None;
    }
    let len_slice = vstd::slice::slice_subrange(s, pos, pos + 8);
    let n64 = le8_to_u64(len_slice);
    proof {
        lemma_le_val_bound(s@.subrange(pos as int, pos + 8));
        lemma_pow256_mono(8, 8);
    }
    let rem = s.len() - pos - 8;
    if n64 > rem as u64 {
        return None;
    }
    let n = n64 as usize;
    let payload_slice = vstd::slice::slice_subrange(s, pos + 8, pos + 8 + n);
    let payload = vstd::slice::slice_to_vec(payload_slice);
    Some((payload, pos + 8 + n))
}

/// Write a list record: the element count as 8 little-endian bytes, then
/// one record per element, wrapped in an outer record.
pub fn write_list(buf: &mut Vec<u8>, elems: &Vec<Vec<u8>>)
    ensures
        final(buf)@ == old(buf)@ + enc_list(elems@.map_values(|e: Vec<u8>| e@)),
{
    let ghost view = elems@.map_values(|e: Vec<u8>| e@);
    let mut payload = u64_to_le8(elems.len() as u64);
    let n = elems.len();
    let mut i: usize = 0;
    proof {
        assert(view.take(0) =~= Seq::<Seq<u8>>::empty());
    }
    while i < n
        invariant
            i <= n,
            n == elems@.len(),
            view == elems@.map_values(|e: Vec<u8>| e@),
            payload@ == le_bytes(n as nat, 8) + enc_records(view.take(i as int)),
        decreases n - i,
    {
        let e = &elems[i];
        write_record(&mut payload, e.as_slice());
        proof {
            assert(view[i as int] == elems@[i as int]@);
            assert(view.take(i + 1) =~= view.take(i as int).push(view[i as int]));
            lemma_enc_records_push(view.take(i as int), view[i as int]);
            assert((le_bytes(n as nat, 8) + enc_records(view.take(i as int))) + enc_record(e@)
                =~= le_bytes(n as nat, 8) + enc_records(view.take(i + 1)));
        }
        i = i + 1;
    }
    proof {
        assert(view.take(n as int) =~= view);
        assert(view.len() == n);
    }
    write_record(buf, payload.as_slice());
}

/// Read a list record at `pos`: its elements and the position just after it.
pub fn read_list(s: &[u8], pos: usize) -> (r: Result<(Vec<Vec<u8>>, usize), WireError>)
    requires
        pos <= s@.len(),
    ensures
        match r {
            Ok((elems, next)) => {
                &&& parse_record(s@, pos as int) matches Some((payload, nx))
                &&& nx == next as int
                &&& parse_list_payload(
                    parse_record(s@, pos as int)->Some_0.0,
                ) == Some(elems@.map_values(|e: Vec<u8>| e@))
                &&& next <= s@.len()
            },
            Err(WireError::Truncated) => parse_record(s@, pos as int) is None,
            Err(WireError::Malformed) => {
                &&& parse_record(s@, pos as int) matches Some((payload, nx))
                &&& parse_list_payload(payload) is None
            },
        },
{
    let rec = read_record(s, pos);
    match rec {
        None => Err(WireError::Truncated),
        Some((payload, next)) => {
            if payload.len() < 8 {
                return Err(WireError::Malformed);
            }
            let count_slice = vstd::slice::slice_subrange(payload.as_slice(), 0, 8);
            let count = le8_to_u64(count_slice);
            let ghost pv = payload@;
            let mut elems: Vec<Vec<u8>> = Vec::new();
            let mut q: usize = 8;
            let mut j: u64 = 0;
            proof {
                assert(elems@.map_values(|e: Vec<u8>| e@) =~= Seq::<Seq<u8>>::empty());
            }
            while j < count
                invariant
                    pv == payload@,
                    8 <= q <= pv.len(),
                    j <= count,
                    count as nat == le_val(pv.subrange(0, 8)),
                    pos <= s@.len(),
                    next <= s@.len(),
                    parse_record(s@, pos as int) == Some((pv, next as int)),
                    ({
                        let done = elems@.map_values(|e: Vec<u8>| e@);
                        match parse_elems(pv, q as int, (count - j) as nat) {
                            None => parse_elems(pv, 8, count as nat) is None,
                            Some((rest, end)) => parse_elems(pv, 8, count as nat) == Some(
                                (done + rest, end),
                            ),
                        }
                    }),
                decreases count - j,
            {
                let step = read_record(payload.as_slice(), q);
                match step {
                    None => {
                        proof {
                            let k = (count - j) as nat;
                            assert(parse_elems(pv, q as int, k) is None);
                            assert(parse_elems(pv, 8, count as nat) is None);
                            assert(parse_list_payload(pv) is None);
                        }
                        return Err(WireError::Malformed);
                    },
                    Some((e, q2)) => {
                        proof {
                            let done = elems@.map_values(|ee: Vec<u8>| ee@);
                            let k = (count - j) as nat;
                            assert(parse_elems(pv, q as int, k) == match parse_elems(
                                pv,
                                q2 as int,
                                (k - 1) as nat,
                            ) {
                                None => None::<(Seq<Seq<u8>>, int)>,
                                Some((rest, end)) => Some((seq![e@] + rest, end)),
                            });
                            if parse_elems(pv, q2 as int, (k - 1) as nat) is Some {
                                let (rest, end) = parse_elems(pv, q2 as int, (k - 1) as nat)->Some_0;
                                assert(done + (seq![e@] + rest) =~= (done + seq![e@]) + rest);
                            }
                        }
                        let ghost old_elems = elems@;
                        elems.push(e);
                        proof {
                            assert(elems@ =~= old_elems.push(elems@[old_elems.len() as int]));
                            assert(elems@.map_values(|ee: Vec<u8>| ee@) =~= old_elems.map_values(
                                |ee: Vec<u8>| ee@,
                            ) + seq![elems@[old_elems.len() as int]@]);
                        }
                        q = q2;
                        j = j + 1;
                    },
                }
            }
            proof {
                assert(parse_elems(pv, q as int, 0) == Some((Seq::<Seq<u8>>::empty(), q as int)));
                assert(elems@.map_values(|e: Vec<u8>| e@) + Seq::<Seq<u8>>::empty()
                    =~= elems@.map_values(|e: Vec<u8>| e@));
            }
            if q != payload.len() {
                proof {
                    assert(parse_list_payload(pv) is None);
                }
                return Err(WireError::Malformed);
            }
            proof {
                assert(parse_list_payload(pv) == Some(elems@.map_values(|e: Vec<u8>| e@)));
            }
            Ok((elems, next))
        },
    }
}

} // verus!
