//! The persistence codec: a compact binary encoding of the full registry.
//!
//! Every value is written in little-endian form with length-prefixed UTF-8
//! strings, so that decoding an encoded registry reproduces exactly the same
//! names and field values.

use vstd::prelude::*;

use crate::cache::{kv_to_map, KvSeq, Service, ServiceCache, ServiceView};
use crate::config::{Orchestrators, UserProvidedConfig, UserProvidedConfigView};
use crate::errors::ServicingError;
use vstd::bytes::{
    lemma_auto_spec_u16_to_from_le_bytes, lemma_auto_spec_u64_to_from_le_bytes,
    spec_u16_from_le_bytes, spec_u16_to_le_bytes, spec_u64_from_le_bytes, spec_u64_to_le_bytes,
    u16_from_le_bytes, u16_to_le_bytes, u64_from_le_bytes, u64_to_le_bytes,
};
use vstd::slice::{slice_subrange, slice_to_vec};
use vstd::string::{StrSliceExecFns, StringSliceAdditionalSpecFns};
use vstd::utf8::{decode_utf8, encode_utf8, valid_utf8};

verus! {

/// One more than the largest length a 64-bit prefix can carry.
pub open spec fn u64_bound() -> int {
    0x10000000000000000
}

/// The byte length of the string's UTF-8 form fits the length prefix.
pub open spec fn str_bounded(s: Seq<char>) -> bool {
    encode_utf8(s).len() < u64_bound()
}

// ------------------------------------------------------------------
// Encoding, as a function of the mathematical value.
// ------------------------------------------------------------------
/// A 64-bit length or count, little endian.
pub open spec fn enc_u64(x: u64) -> Seq<u8> {
    spec_u64_to_le_bytes(x)
}

/// A 16-bit field, little endian.
pub open spec fn enc_u16(x: u16) -> Seq<u8> {
    spec_u16_to_le_bytes(x)
}

/// A flag, one byte.
pub open spec fn enc_bool(b: bool) -> Seq<u8> {
    seq![if b { 1u8 } else { 0u8 }]
}

/// A string: its UTF-8 byte length, then its UTF-8 bytes.
pub open spec fn enc_str(s: Seq<char>) -> Seq<u8> {
    enc_u64(encode_utf8(s).len() as u64) + encode_utf8(s)
}

/// An optional string: a presence byte, then the string if present.
pub open spec fn enc_opt_str(o: Option<Seq<char>>) -> Seq<u8> {
    match o {
        None => seq![0u8],
        Some(s) => seq![1u8] + enc_str(s),
    }
}

/// An optional 16-bit field: a presence byte, then the field if present.
pub open spec fn enc_opt_u16(o: Option<u16>) -> Seq<u8> {
    match o {
        None => seq![0u8],
        Some(x) => seq![1u8] + enc_u16(x),
    }
}

// ------------------------------------------------------------------
// Decoding: each reader yields the value and the position after it.
// ------------------------------------------------------------------
/// Reads a 64-bit field.
pub open spec fn dec_u64(b: Seq<u8>, p: int) -> Option<(u64, int)> {
    if 0 <= p && p + 8 <= b.len() {
        Some((spec_u64_from_le_bytes(b.subrange(p, p + 8)), p + 8))
    } else {
        None
    }
}

/// Reads a 16-bit field.
pub open spec fn dec_u16(b: Seq<u8>, p: int) -> Option<(u16, int)> {
    if 0 <= p && p + 2 <= b.len() {
        Some((spec_u16_from_le_bytes(b.subrange(p, p + 2)), p + 2))
    } else {
        None
    }
}

/// Reads one byte.
pub open spec fn dec_byte(b: Seq<u8>, p: int) -> Option<(u8, int)> {
    if 0 <= p < b.len() {
        Some((b[p], p + 1))
    } else {
        None
    }
}

/// Reads a flag; any byte but zero and one is malformed.
pub open spec fn dec_bool(b: Seq<u8>, p: int) -> Option<(bool, int)> {
    match dec_byte(b, p) {
        None => None,
        Some((t, q)) => if t == 0 {
            Some((false, q))
        } else if t == 1 {
            Some((true, q))
        } else {
            None
        },
    }
}

/// Reads a length-prefixed UTF-8 string.
pub open spec fn dec_str(b: Seq<u8>, p: int) -> Option<(Seq<char>, int)> {
    match dec_u64(b, p) {
        None => None,
        Some((n, q)) => if q + n <= b.len() && valid_utf8(b.subrange(q, q + n)) {
            Some((decode_utf8(b.subrange(q, q + n)), q + n))
        } else {
            None
        },
    }
}

/// Reads an optional string.
pub open spec fn dec_opt_str(b: Seq<u8>, p: int) -> Option<(Option<Seq<char>>, int)> {
    match dec_byte(b, p) {
        None => None,
        Some((t, q)) => if t == 0 {
            Some((None, q))
        } else if t == 1 {
            match dec_str(b, q) {
                None => None,
                Some((s, q2)) => Some((Some(s), q2)),
            }
        } else {
            None
        },
    }
}

/// Reads an optional 16-bit field.
pub open spec fn dec_opt_u16(b: Seq<u8>, p: int) -> Option<(Option<u16>, int)> {
    match dec_byte(b, p) {
        None => None,
        Some((t, q)) => if t == 0 {
            Some((None, q))
        } else if t == 1 {
            match dec_u16(b, q) {
                None => None,
                Some((x, q2)) => Some((Some(x), q2)),
            }
        } else {
            None
        },
    }
}

// ------------------------------------------------------------------
// Reading back what was written yields the value that was written.
// ------------------------------------------------------------------
/// Splitting a known concatenation out of a buffer.
proof fn lemma_subrange_concat(b: Seq<u8>, p: int, x: Seq<u8>, y: Seq<u8>)
    requires
        0 <= p,
        p + x.len() + y.len() <= b.len(),
        b.subrange(p, p + x.len() + y.len()) == x + y,
    ensures
        b.subrange(p, p + x.len() as int) == x,
        b.subrange(p + x.len(), p + x.len() + y.len()) == y,
{
    let whole = b.subrange(p, p + x.len() + y.len());
    assert(b.subrange(p, p + x.len() as int) =~= x) by {
        assert forall|k: int| 0 <= k < x.len() implies b.subrange(p, p + x.len() as int)[k]
            == x[k] by {
            assert(b.subrange(p, p + x.len() as int)[k] == whole[k]);
            assert(whole[k] == (x + y)[k]);
        }
    }
    assert(b.subrange(p + x.len(), p + x.len() + y.len()) =~= y) by {
        assert forall|k: int| 0 <= k < y.len() implies b.subrange(
            p + x.len(),
            p + x.len() + y.len(),
        )[k] == y[k] by {
            assert(b.subrange(p + x.len(), p + x.len() + y.len())[k] == whole[k + x.len()]);
            assert(whole[k + x.len()] == (x + y)[k + x.len()]);
        }
    }
}

proof fn lemma_dec_u64_at(b: Seq<u8>, p: int, x: u64)
    requires
        0 <= p,
        p + 8 <= b.len(),
        b.subrange(p, p + 8) == enc_u64(x),
    ensures
        dec_u64(b, p) == Some((x, p + 8)),
{
    lemma_auto_spec_u64_to_from_le_bytes();
}

proof fn lemma_dec_u16_at(b: Seq<u8>, p: int, x: u16)
    requires
        0 <= p,
        p + 2 <= b.len(),
        b.subrange(p, p + 2) == enc_u16(x),
    ensures
        dec_u16(b, p) == Some((x, p + 2)),
{
    lemma_auto_spec_u16_to_from_le_bytes();
    assert(spec_u16_to_le_bytes(x).len() == 2);
}

proof fn lemma_dec_bool_at(b: Seq<u8>, p: int, v: bool)
    requires
        0 <= p,
        p + 1 <= b.len(),
        b.subrange(p, p + 1) == enc_bool(v),
    ensures
        dec_bool(b, p) == Some((v, p + 1)),
{
    assert(b[p] == b.subrange(p, p + 1)[0]);
}

proof fn lemma_dec_str_at(b: Seq<u8>, p: int, s: Seq<char>)
    requires
        0 <= p,
        str_bounded(s),
        p + enc_str(s).len() <= b.len(),
        b.subrange(p, p + enc_str(s).len() as int) == enc_str(s),
    ensures
        dec_str(b, p) == Some((s, p + enc_str(s).len())),
{
    broadcast use vstd::utf8::encode_utf8_valid_utf8, vstd::utf8::encode_utf8_decode_utf8;

    lemma_auto_spec_u64_to_from_le_bytes();
    let u = encode_utf8(s);
    let n = u.len() as u64;
    assert(enc_str(s) == enc_u64(n) + u);
    lemma_subrange_concat(b, p, enc_u64(n), u);
    lemma_dec_u64_at(b, p, n);
    assert(b.subrange(p + 8, p + 8 + u.len()) == u);
    assert(valid_utf8(u));
    assert(decode_utf8(u) == s);
}

proof fn lemma_dec_opt_str_at(b: Seq<u8>, p: int, o: Option<Seq<char>>)
    requires
        0 <= p,
        (o matches Some(s) ==> str_bounded(s)),
        p + enc_opt_str(o).len() <= b.len(),
        b.subrange(p, p + enc_opt_str(o).len() as int) == enc_opt_str(o),
    ensures
        dec_opt_str(b, p) == Some((o, p + enc_opt_str(o).len())),
{
    match o {
        None => {
            assert(b[p] == b.subrange(p, p + 1)[0]);
        },
        Some(s) => {
            lemma_subrange_concat(b, p, seq![1u8], enc_str(s));
            assert(b[p] == b.subrange(p, p + 1)[0]);
            lemma_dec_str_at(b, p + 1, s);
        },
    }
}

proof fn lemma_dec_opt_u16_at(b: Seq<u8>, p: int, o: Option<u16>)
    requires
        0 <= p,
        p + enc_opt_u16(o).len() <= b.len(),
        b.subrange(p, p + enc_opt_u16(o).len() as int) == enc_opt_u16(o),
    ensures
        dec_opt_u16(b, p) == Some((o, p + enc_opt_u16(o).len())),
{
    lemma_auto_spec_u16_to_from_le_bytes();
    match o {
        None => {
            assert(b[p] == b.subrange(p, p + 1)[0]);
        },
        Some(x) => {
            lemma_subrange_concat(b, p, seq![1u8], enc_u16(x));
            assert(b[p] == b.subrange(p, p + 1)[0]);
            lemma_dec_u16_at(b, p + 1, x);
        },
    }
}

// ------------------------------------------------------------------
// Executable writers: each appends its encoding to the output.
// ------------------------------------------------------------------
fn put_u64(out: &mut Vec<u8>, x: u64)
    ensures
        final(out)@ == old(out)@ + enc_u64(x),
{
    let mut bs = u64_to_le_bytes(x);
    out.append(&mut bs);
}

fn put_u16(out: &mut Vec<u8>, x: u16)
    ensures
        final(out)@ == old(out)@ + enc_u16(x),
{
    let mut bs = u16_to_le_bytes(x);
    out.append(&mut bs);
}

fn put_bool(out: &mut Vec<u8>, v: bool)
    ensures
        final(out)@ == old(out)@ + enc_bool(v),
{
    out.push(if v {
        1u8
    } else {
        0u8
    });
    proof {
        assert(final(out)@ =~= old(out)@ + enc_bool(v));
    }
}

fn put_str(out: &mut Vec<u8>, s: &String)
    ensures
        final(out)@ == old(out)@ + enc_str(s@),
        str_bounded(s@),
{
    let mut bs = s.as_str().as_bytes_vec();
    put_u64(out, bs.len() as u64);
    out.append(&mut bs);
    proof {
        assert(final(out)@ =~= old(out)@ + enc_str(s@));
    }
}

fn put_opt_str(out: &mut Vec<u8>, o: &Option<String>)
    ensures
        final(out)@ == old(out)@ + enc_opt_str(o.deep_view()),
        o matches Some(s) ==> str_bounded(s@),
{
    match o {
        None => {
            out.push(0u8);
            proof {
                assert(final(out)@ =~= old(out)@ + enc_opt_str(o.deep_view()));
            }
        },
        Some(s) => {
            out.push(1u8);
            let ghost mid = out@;
            proof {
                assert(mid =~= old(out)@ + seq![1u8]);
            }
            put_str(out, s);
            proof {
                assert(final(out)@ =~= old(out)@ + enc_opt_str(o.deep_view()));
            }
        },
    }
}

fn put_opt_u16(out: &mut Vec<u8>, o: &Option<u16>)
    ensures
        final(out)@ == old(out)@ + enc_opt_u16(*o),
{
    match o {
        None => {
            out.push(0u8);
            proof {
                assert(final(out)@ =~= old(out)@ + enc_opt_u16(*o));
            }
        },
        Some(x) => {
            out.push(1u8);
            put_u16(out, *x);
            proof {
                assert(final(out)@ =~= old(out)@ + enc_opt_u16(*o));
            }
        },
    }
}

// ------------------------------------------------------------------
// Executable readers: each mirrors its specification reader.
// ------------------------------------------------------------------
fn rd_u64(b: &[u8], p: usize) -> (r: Option<(u64, usize)>)
    requires
        p <= b@.len(),
    ensures
        match r {
            Some((v, q)) => dec_u64(b@, p as int) == Some((v, q as int)) && p < q <= b@.len(),
            None => dec_u64(b@, p as int) is None,
        },
{
    if b.len() - p >= 8 {
        let s = slice_subrange(b, p, p + 8);
        Some((u64_from_le_bytes(s), p + 8))
    } else {
        None
    }
}

fn rd_u16(b: &[u8], p: usize) -> (r: Option<(u16, usize)>)
    requires
        p <= b@.len(),
    ensures
        match r {
            Some((v, q)) => dec_u16(b@, p as int) == Some((v, q as int)) && p < q <= b@.len(),
            None => dec_u16(b@, p as int) is None,
        },
{
    if b.len() - p >= 2 {
        let s = slice_subrange(b, p, p + 2);
        Some((u16_from_le_bytes(s), p + 2))
    } else {
        None
    }
}

fn rd_byte(b: &[u8], p: usize) -> (r: Option<(u8, usize)>)
    requires
        p <= b@.len(),
    ensures
        match r {
            Some((v, q)) => dec_byte(b@, p as int) == Some((v, q as int)) && p < q <= b@.len(),
            None => dec_byte(b@, p as int) is None,
        },
{
    if p < b.len() {
        let s = slice_subrange(b, p, p + 1);
        Some((s[0], p + 1))
    } else {
        None
    }
}

fn rd_bool(b: &[u8], p: usize) -> (r: Option<(bool, usize)>)
    requires
        p <= b@.len(),
    ensures
        match r {
            Some((v, q)) => dec_bool(b@, p as int) == Some((v, q as int)) && p < q <= b@.len(),
            None => dec_bool(b@, p as int) is None,
        },
{
    match rd_byte(b, p) {
        None => None,
        Some((t, q)) => {
            if t == 0 {
                Some((false, q))
            } else if t == 1 {
                Some((true, q))
            } else {
                None
            }
        },
    }
}

/// Relies on String::from_utf8: it accepts exactly the valid UTF-8 byte
/// sequences and decodes one to its characters.
#[verifier::external_body]
fn string_from_utf8(v: Vec<u8>) -> (r: Option<String>)
    ensures
        r is Some <==> valid_utf8(v@),
        r matches Some(s) ==> s@ == decode_utf8(v@),
{
    String::from_utf8(v).ok()
}

fn rd_str(b: &[u8], p: usize) -> (r: Option<(String, usize)>)
    requires
        p <= b@.len(),
    ensures
        match r {
            Some((v, q)) => dec_str(b@, p as int) == Some((v@, q as int)) && p < q <= b@.len(),
            None => dec_str(b@, p as int) is None,
        },
{
    match rd_u64(b, p) {
        None => None,
        Some((n, q)) => {
            if n <= (b.len() - q) as u64 {
                let q2 = q + (n as usize);
                let bytes = slice_to_vec(slice_subrange(b, q, q2));
                match string_from_utf8(bytes) {
                    None => None,
                    Some(s) => Some((s, q2)),
                }
            } else {
                None
            }
        },
    }
}

fn rd_opt_str(b: &[u8], p: usize) -> (r: Option<(Option<String>, usize)>)
    requires
        p <= b@.len(),
    ensures
        match r {
            Some((v, q)) => dec_opt_str(b@, p as int) == Some((v.deep_view(), q as int)) && p < q
                <= b@.len(),
            None => dec_opt_str(b@, p as int) is None,
        },
{
    match rd_byte(b, p) {
        None => None,
        Some((t, q)) => {
            if t == 0 {
                Some((None, q))
            } else if t == 1 {
                match rd_str(b, q) {
                    None => None,
                    Some((s, q2)) => Some((Some(s), q2)),
                }
            } else {
                None
            }
        },
    }
}

// ------------------------------------------------------------------
// The registry's record types.
// ------------------------------------------------------------------
/// Every string field of an override fits its length prefix.
pub open spec fn upc_bounded(c: UserProvidedConfigView) -> bool {
    &&& (c.readiness_probe matches Some(s) ==> str_bounded(s))
    &&& (c.replica_up_check matches Some(s) ==> str_bounded(s))
    &&& (c.cloud matches Some(s) ==> str_bounded(s))
    &&& (c.workdir matches Some(s) ==> str_bounded(s))
    &&& (c.cpu matches Some(s) ==> str_bounded(s))
    &&& (c.memory matches Some(s) ==> str_bounded(s))
    &&& (c.accelerators matches Some(s) ==> str_bounded(s))
    &&& (c.setup matches Some(s) ==> str_bounded(s))
    &&& (c.run matches Some(s) ==> str_bounded(s))
}

/// A caller-supplied override, field by field.
pub open spec fn enc_upc(c: UserProvidedConfigView) -> Seq<u8> {
    enc_opt_u16(c.port) + (enc_opt_u16(c.replicas) + (enc_opt_str(c.readiness_probe) + (
    enc_opt_str(c.replica_up_check) + (enc_opt_str(c.cloud) + (enc_opt_str(c.workdir) + (
    enc_opt_u16(c.disk_size) + (enc_opt_str(c.cpu) + (enc_opt_str(c.memory) + (enc_opt_str(
        c.accelerators,
    ) + (enc_opt_str(c.setup) + enc_opt_str(c.run)))))))))))
}

/// Reads an override.
pub open spec fn dec_upc(b: Seq<u8>, p: int) -> Option<(UserProvidedConfigView, int)> {
    match dec_opt_u16(b, p) {
        None => None,
        Some((port, p)) => match dec_opt_u16(b, p) {
            None => None,
            Some((replicas, p)) => match dec_opt_str(b, p) {
                None => None,
                Some((readiness_probe, p)) => match dec_opt_str(b, p) {
                    None => None,
                    Some((replica_up_check, p)) => match dec_opt_str(b, p) {
                        None => None,
                        Some((cloud, p)) => match dec_opt_str(b, p) {
                            None => None,
                            Some((workdir, p)) => match dec_opt_u16(b, p) {
                                None => None,
                                Some((disk_size, p)) => match dec_opt_str(b, p) {
                                    None => None,
                                    Some((cpu, p)) => match dec_opt_str(b, p) {
                                        None => None,
                                        Some((memory, p)) => match dec_opt_str(b, p) {
                                            None => None,
                                            Some((accelerators, p)) => match dec_opt_str(b, p) {
                                                None => None,
                                                Some((setup, p)) => match dec_opt_str(b, p) {
                                                    None => None,
                                                    Some((run, p)) => Some(
                                                        (
                                                            UserProvidedConfigView {
                                                                port,
                                                                replicas,
                                                                readiness_probe,
                                                                replica_up_check,
                                                                cloud,
                                                                workdir,
                                                                disk_size,
                                                                cpu,
                                                                memory,
                                                                accelerators,
                                                                setup,
                                                                run,
                                                            },
                                                            p,
                                                        ),
                                                    ),
                                                },
                                            },
                                        },
                                    },
                                },
                            },
                        },
                    },
                },
            },
        },
    }
}

#[verifier::rlimit(50)]
proof fn lemma_dec_upc_at(b: Seq<u8>, p: int, c: UserProvidedConfigView)
    requires
        0 <= p,
        upc_bounded(c),
        p + enc_upc(c).len() <= b.len(),
        b.subrange(p, p + enc_upc(c).len() as int) == enc_upc(c),
    ensures
        dec_upc(b, p) == Some((c, p + enc_upc(c).len())),
{
    let a1 = enc_opt_u16(c.port);
    let a2 = enc_opt_u16(c.replicas);
    let a3 = enc_opt_str(c.readiness_probe);
    let a4 = enc_opt_str(c.replica_up_check);
    let a5 = enc_opt_str(c.cloud);
    let a6 = enc_opt_str(c.workdir);
    let a7 = enc_opt_u16(c.disk_size);
    let a8 = enc_opt_str(c.cpu);
    let a9 = enc_opt_str(c.memory);
    let a10 = enc_opt_str(c.accelerators);
    let a11 = enc_opt_str(c.setup);
    let a12 = enc_opt_str(c.run);
    let t11 = a11 + a12;
    let t10 = a10 + t11;
    let t9 = a9 + t10;
    let t8 = a8 + t9;
    let t7 = a7 + t8;
    let t6 = a6 + t7;
    let t5 = a5 + t6;
    let t4 = a4 + t5;
    let t3 = a3 + t4;
    let t2 = a2 + t3;
    assert(enc_upc(c) == a1 + t2);
    let p1 = p + a1.len();
    lemma_subrange_concat(b, p, a1, t2);
    lemma_dec_opt_u16_at(b, p, c.port);
    let p2 = p1 + a2.len();
    lemma_subrange_concat(b, p1, a2, t3);
    lemma_dec_opt_u16_at(b, p1, c.replicas);
    let p3 = p2 + a3.len();
    lemma_subrange_concat(b, p2, a3, t4);
    lemma_dec_opt_str_at(b, p2, c.readiness_probe);
    let p4 = p3 + a4.len();
    lemma_subrange_concat(b, p3, a4, t5);
    lemma_dec_opt_str_at(b, p3, c.replica_up_check);
    let p5 = p4 + a5.len();
    lemma_subrange_concat(b, p4, a5, t6);
    lemma_dec_opt_str_at(b, p4, c.cloud);
    let p6 = p5 + a6.len();
    lemma_subrange_concat(b, p5, a6, t7);
    lemma_dec_opt_str_at(b, p5, c.workdir);
    let p7 = p6 + a7.len();
    lemma_subrange_concat(b, p6, a7, t8);
    lemma_dec_opt_u16_at(b, p6, c.disk_size);
    let p8 = p7 + a8.len();
    lemma_subrange_concat(b, p7, a8, t9);
    lemma_dec_opt_str_at(b, p7, c.cpu);
    let p9 = p8 + a9.len();
    lemma_subrange_concat(b, p8, a9, t10);
    lemma_dec_opt_str_at(b, p8, c.memory);
    let p10 = p9 + a10.len();
    lemma_subrange_concat(b, p9, a10, t11);
    lemma_dec_opt_str_at(b, p9, c.accelerators);
    let p11 = p10 + a11.len();
    lemma_subrange_concat(b, p10, a11, a12);
    lemma_dec_opt_str_at(b, p10, c.setup);
    lemma_dec_opt_str_at(b, p11, c.run);
}

/// The owning orchestrator variant, one byte.
pub open spec fn enc_orch(o: Orchestrators) -> Seq<u8> {
    match o {
        Orchestrators::SkyPilot => seq![0u8],
        Orchestrators::Local => seq![1u8],
    }
}

/// Reads an orchestrator variant.
pub open spec fn dec_orch(b: Seq<u8>, p: int) -> Option<(Orchestrators, int)> {
    match dec_byte(b, p) {
        None => None,
        Some((t, q)) => if t == 0 {
            Some((Orchestrators::SkyPilot, q))
        } else if t == 1 {
            Some((Orchestrators::Local, q))
        } else {
            None
        },
    }
}

proof fn lemma_dec_orch_at(b: Seq<u8>, p: int, o: Orchestrators)
    requires
        0 <= p,
        p + 1 <= b.len(),
        b.subrange(p, p + 1) == enc_orch(o),
    ensures
        dec_orch(b, p) == Some((o, p + 1)),
{
    assert(b[p] == b.subrange(p, p + 1)[0]);
}

/// An optional override: a presence byte, then the override if present.
pub open spec fn enc_opt_upc(o: Option<UserProvidedConfigView>) -> Seq<u8> {
    match o {
        None => seq![0u8],
        Some(c) => seq![1u8] + enc_upc(c),
    }
}

/// Reads an optional override.
pub open spec fn dec_opt_upc(b: Seq<u8>, p: int) -> Option<(Option<UserProvidedConfigView>, int)> {
    match dec_byte(b, p) {
        None => None,
        Some((t, q)) => if t == 0 {
            Some((None, q))
        } else if t == 1 {
            match dec_upc(b, q) {
                None => None,
                Some((c, q2)) => Some((Some(c), q2)),
            }
        } else {
            None
        },
    }
}

proof fn lemma_dec_opt_upc_at(b: Seq<u8>, p: int, o: Option<UserProvidedConfigView>)
    requires
        0 <= p,
        (o matches Some(c) ==> upc_bounded(c)),
        p + enc_opt_upc(o).len() <= b.len(),
        b.subrange(p, p + enc_opt_upc(o).len() as int) == enc_opt_upc(o),
    ensures
        dec_opt_upc(b, p) == Some((o, p + enc_opt_upc(o).len())),
{
    match o {
        None => {
            assert(b[p] == b.subrange(p, p + 1)[0]);
        },
        Some(c) => {
            lemma_subrange_concat(b, p, seq![1u8], enc_upc(c));
            assert(b[p] == b.subrange(p, p + 1)[0]);
            lemma_dec_upc_at(b, p + 1, c);
        },
    }
}

/// Every string of a record fits its length prefix.
pub open spec fn service_bounded(s: ServiceView) -> bool {
    &&& (s.config matches Some(c) ==> upc_bounded(c))
    &&& (s.filepath matches Some(f) ==> str_bounded(f))
    &&& str_bounded(s.readiness_probe)
    &&& (s.url matches Some(u) ==> str_bounded(u))
}

/// A service record, field by field.
pub open spec fn enc_service(s: ServiceView) -> Seq<u8> {
    enc_opt_upc(s.config) + (enc_orch(s.orchestrator) + (enc_opt_str(s.filepath) + (enc_str(
        s.readiness_probe,
    ) + (enc_opt_str(s.url) + enc_bool(s.up)))))
}

/// Reads a service record.
pub open spec fn dec_service(b: Seq<u8>, p: int) -> Option<(ServiceView, int)> {
    match dec_opt_upc(b, p) {
        None => None,
        Some((config, p)) => match dec_orch(b, p) {
            None => None,
            Some((orchestrator, p)) => match dec_opt_str(b, p) {
                None => None,
                Some((filepath, p)) => match dec_str(b, p) {
                    None => None,
                    Some((readiness_probe, p)) => match dec_opt_str(b, p) {
                        None => None,
                        Some((url, p)) => match dec_bool(b, p) {
                            None => None,
                            Some((up, p)) => Some(
                                (
                                    ServiceView {
                                        config,
                                        orchestrator,
                                        filepath,
                                        readiness_probe,
                                        url,
                                        up,
                                    },
                                    p,
                                ),
                            ),
                        },
                    },
                },
            },
        },
    }
}

proof fn lemma_dec_service_at(b: Seq<u8>, p: int, s: ServiceView)
    requires
        0 <= p,
        service_bounded(s),
        p + enc_service(s).len() <= b.len(),
        b.subrange(p, p + enc_service(s).len() as int) == enc_service(s),
    ensures
        dec_service(b, p) == Some((s, p + enc_service(s).len())),
{
    let a1 = enc_opt_upc(s.config);
    let a2 = enc_orch(s.orchestrator);
    let a3 = enc_opt_str(s.filepath);
    let a4 = enc_str(s.readiness_probe);
    let a5 = enc_opt_str(s.url);
    let a6 = enc_bool(s.up);
    let t5 = a5 + a6;
    let t4 = a4 + t5;
    let t3 = a3 + t4;
    let t2 = a2 + t3;
    assert(enc_service(s) == a1 + t2);
    let p1 = p + a1.len();
    lemma_subrange_concat(b, p, a1, t2);
    lemma_dec_opt_upc_at(b, p, s.config);
    let p2 = p1 + a2.len();
    lemma_subrange_concat(b, p1, a2, t3);
    lemma_dec_orch_at(b, p1, s.orchestrator);
    let p3 = p2 + a3.len();
    lemma_subrange_concat(b, p2, a3, t4);
    lemma_dec_opt_str_at(b, p2, s.filepath);
    let p4 = p3 + a4.len();
    lemma_subrange_concat(b, p3, a4, t5);
    lemma_dec_str_at(b, p3, s.readiness_probe);
    let p5 = p4 + a5.len();
    lemma_subrange_concat(b, p4, a5, a6);
    lemma_dec_opt_str_at(b, p4, s.url);
    lemma_dec_bool_at(b, p5, s.up);
}

// ------------------------------------------------------------------
// The whole registry: a count, then each name with its record.
// ------------------------------------------------------------------
/// Every name and record of the sequence fits its length prefixes.
pub open spec fn kv_bounded(kv: KvSeq) -> bool {
    &&& kv.len() < u64_bound()
    &&& forall|i: int| 0 <= i < kv.len() ==> str_bounded((#[trigger] kv[i]).0)
    &&& forall|i: int| 0 <= i < kv.len() ==> service_bounded((#[trigger] kv[i]).1)
}

/// Every record of the sequence satisfies the record invariant.
pub open spec fn kv_records_wf(kv: KvSeq) -> bool {
    forall|i: int| 0 <= i < kv.len() ==> (#[trigger] kv[i]).1.wf()
}

/// One entry: the name, then the record.
pub open spec fn enc_entry(e: (Seq<char>, ServiceView)) -> Seq<u8> {
    enc_str(e.0) + enc_service(e.1)
}

/// All entries, first to last.
pub open spec fn enc_entries(kv: KvSeq) -> Seq<u8>
    decreases kv.len(),
{
    if kv.len() == 0 {
        Seq::empty()
    } else {
        enc_entry(kv[0]) + enc_entries(kv.drop_first())
    }
}

/// The registry: the entry count, then the entries.
pub open spec fn enc_cache(kv: KvSeq) -> Seq<u8> {
    enc_u64(kv.len() as u64) + enc_entries(kv)
}

/// Appending one entry extends the encoding at its end.
proof fn lemma_enc_entries_snoc(kv: KvSeq, e: (Seq<char>, ServiceView))
    ensures
        enc_entries(kv.push(e)) == enc_entries(kv) + enc_entry(e),
    decreases kv.len(),
{
    if kv.len() == 0 {
        let s = kv.push(e);
        assert(s.len() == 1);
        assert(s[0] == e);
        assert(s.drop_first() =~= Seq::<(Seq<char>, ServiceView)>::empty());
        assert(enc_entries(s.drop_first()) == Seq::<u8>::empty());
        assert(enc_entries(s) == enc_entry(e) + Seq::<u8>::empty());
        assert(enc_entries(kv) == Seq::<u8>::empty());
        assert(enc_entry(e) + Seq::<u8>::empty() =~= Seq::<u8>::empty() + enc_entry(e));
    } else {
        assert(kv.push(e).drop_first() =~= kv.drop_first().push(e));
        lemma_enc_entries_snoc(kv.drop_first(), e);
        assert(kv.push(e)[0] == kv[0]);
        assert(enc_entries(kv.push(e)) == enc_entry(kv[0]) + (enc_entries(kv.drop_first())
            + enc_entry(e)));
        assert(enc_entry(kv[0]) + (enc_entries(kv.drop_first()) + enc_entry(e)) =~= (enc_entry(
            kv[0],
        ) + enc_entries(kv.drop_first())) + enc_entry(e));
    }
}

/// Reads `n` entries.
pub open spec fn dec_entries(b: Seq<u8>, p: int, n: nat) -> Option<(KvSeq, int)>
    decreases n,
{
    if n == 0 {
        Some((Seq::empty(), p))
    } else {
        match dec_str(b, p) {
            None => None,
            Some((name, p1)) => match dec_service(b, p1) {
                None => None,
                Some((sv, p2)) => match dec_entries(b, p2, (n - 1) as nat) {
                    None => None,
                    Some((rest, p3)) => Some((seq![(name, sv)] + rest, p3)),
                },
            },
        }
    }
}

/// Reads a whole registry; the buffer must hold exactly one.
pub open spec fn dec_cache(b: Seq<u8>) -> Option<KvSeq> {
    match dec_u64(b, 0) {
        None => None,
        Some((n, p)) => match dec_entries(b, p, n as nat) {
            None => None,
            Some((kv, e)) => if e == b.len() {
                Some(kv)
            } else {
                None
            },
        },
    }
}

#[verifier::rlimit(50)]
proof fn lemma_dec_entries_at(b: Seq<u8>, p: int, kv: KvSeq)
    requires
        0 <= p,
        kv_bounded(kv),
        p + enc_entries(kv).len() <= b.len(),
        b.subrange(p, p + enc_entries(kv).len() as int) == enc_entries(kv),
    ensures
        dec_entries(b, p, kv.len() as nat) == Some((kv, p + enc_entries(kv).len())),
    decreases kv.len(),
{
    if kv.len() == 0 {
    } else {
        let e0 = kv[0];
        let rest = kv.drop_first();
        let a1 = enc_str(e0.0);
        let a2 = enc_service(e0.1);
        let t2 = a2 + enc_entries(rest);
        assert(enc_entries(kv) == enc_entry(e0) + enc_entries(rest));
        assert(enc_entry(e0) + enc_entries(rest) =~= a1 + t2);
        let p1 = p + a1.len();
        lemma_subrange_concat(b, p, a1, t2);
        lemma_dec_str_at(b, p, e0.0);
        let p2 = p1 + a2.len();
        lemma_subrange_concat(b, p1, a2, enc_entries(rest));
        lemma_dec_service_at(b, p1, e0.1);
        assert(kv_bounded(rest)) by {
            assert(forall|i: int| 0 <= i < rest.len() ==> rest[i] == kv[i + 1]);
        }
        lemma_dec_entries_at(b, p2, rest);
        assert(seq![(e0.0, e0.1)] + rest =~= kv);
    }
}

/// Decoding an encoded registry yields back exactly its entries: the
/// persisted map survives a save and load byte for byte.
pub proof fn lemma_codec_round_trip(kv: KvSeq)
    requires
        kv_bounded(kv),
    ensures
        dec_cache(enc_cache(kv)) == Some(kv),
{
    lemma_auto_spec_u64_to_from_le_bytes();
    let b = enc_cache(kv);
    assert(b.subrange(0, b.len() as int) =~= b);
    lemma_subrange_concat(b, 0, enc_u64(kv.len() as u64), enc_entries(kv));
    lemma_dec_u64_at(b, 0, kv.len() as u64);
    lemma_dec_entries_at(b, 8, kv);
}

// ------------------------------------------------------------------
// Executable encoder.
// ------------------------------------------------------------------
#[verifier::rlimit(100)]
fn put_upc(out: &mut Vec<u8>, c: &UserProvidedConfig)
    ensures
        final(out)@ == old(out)@ + enc_upc(c@),
        upc_bounded(c@),
{
    let ghost o0 = out@;
    put_opt_u16(out, &c.port);
    let ghost o1 = out@;
    put_opt_u16(out, &c.replicas);
    let ghost o2 = out@;
    put_opt_str(out, &c.readiness_probe);
    let ghost o3 = out@;
    put_opt_str(out, &c.replica_up_check);
    let ghost o4 = out@;
    put_opt_str(out, &c.cloud);
    let ghost o5 = out@;
    put_opt_str(out, &c.workdir);
    let ghost o6 = out@;
    put_opt_u16(out, &c.disk_size);
    let ghost o7 = out@;
    put_opt_str(out, &c.cpu);
    let ghost o8 = out@;
    put_opt_str(out, &c.memory);
    let ghost o9 = out@;
    put_opt_str(out, &c.accelerators);
    let ghost o10 = out@;
    put_opt_str(out, &c.setup);
    let ghost o11 = out@;
    put_opt_str(out, &c.run);
    proof {
        let a1 = enc_opt_u16(c@.port);
        let a2 = enc_opt_u16(c@.replicas);
        let a3 = enc_opt_str(c@.readiness_probe);
        let a4 = enc_opt_str(c@.replica_up_check);
        let a5 = enc_opt_str(c@.cloud);
        let a6 = enc_opt_str(c@.workdir);
        let a7 = enc_opt_u16(c@.disk_size);
        let a8 = enc_opt_str(c@.cpu);
        let a9 = enc_opt_str(c@.memory);
        let a10 = enc_opt_str(c@.accelerators);
        let a11 = enc_opt_str(c@.setup);
        let a12 = enc_opt_str(c@.run);
        let t11 = a11 + a12;
        let t10 = a10 + t11;
        let t9 = a9 + t10;
        let t8 = a8 + t9;
        let t7 = a7 + t8;
        let t6 = a6 + t7;
        let t5 = a5 + t6;
        let t4 = a4 + t5;
        let t3 = a3 + t4;
        let t2 = a2 + t3;
        assert(out@ =~= o10 + t11);
        assert(o10 + t11 =~= o9 + t10);
        assert(o9 + t10 =~= o8 + t9);
        assert(o8 + t9 =~= o7 + t8);
        assert(o7 + t8 =~= o6 + t7);
        assert(o6 + t7 =~= o5 + t6);
        assert(o5 + t6 =~= o4 + t5);
        assert(o4 + t5 =~= o3 + t4);
        assert(o3 + t4 =~= o2 + t3);
        assert(o2 + t3 =~= o1 + t2);
        assert(o1 + t2 =~= o0 + (a1 + t2));
        assert(out@ == o0 + enc_upc(c@));
    }
}

fn put_orch(out: &mut Vec<u8>, o: &Orchestrators)
    ensures
        final(out)@ == old(out)@ + enc_orch(*o),
{
    match o {
        Orchestrators::SkyPilot => out.push(0u8),
        Orchestrators::Local => out.push(1u8),
    }
    proof {
        assert(final(out)@ =~= old(out)@ + enc_orch(*o));
    }
}

#[verifier::rlimit(100)]
fn put_service(out: &mut Vec<u8>, s: &Service)
    ensures
        final(out)@ == old(out)@ + enc_service(s@),
        service_bounded(s@),
{
    let ghost o0 = out@;
    match &s.config {
        None => {
            out.push(0u8);
        },
        Some(c) => {
            out.push(1u8);
            let ghost mid = out@;
            proof {
                assert(mid =~= o0 + seq![1u8]);
            }
            put_upc(out, c);
        },
    }
    proof {
        assert(out@ =~= o0 + enc_opt_upc(s@.config));
    }
    let ghost o1 = out@;
    put_orch(out, &s.orchestrator);
    let ghost o2 = out@;
    put_opt_str(out, &s.filepath);
    let ghost o3 = out@;
    put_str(out, &s.readiness_probe);
    let ghost o4 = out@;
    put_opt_str(out, &s.url);
    let ghost o5 = out@;
    put_bool(out, s.up);
    proof {
        let a1 = enc_opt_upc(s@.config);
        let a2 = enc_orch(s@.orchestrator);
        let a3 = enc_opt_str(s@.filepath);
        let a4 = enc_str(s@.readiness_probe);
        let a5 = enc_opt_str(s@.url);
        let a6 = enc_bool(s@.up);
        let t5 = a5 + a6;
        let t4 = a4 + t5;
        let t3 = a3 + t4;
        let t2 = a2 + t3;
        assert(out@ =~= o4 + t5);
        assert(o4 + t5 =~= o3 + t4);
        assert(o3 + t4 =~= o2 + t3);
        assert(o2 + t3 =~= o1 + t2);
        assert(o1 + t2 =~= o0 + (a1 + t2));
        assert(out@ == o0 + enc_service(s@));
    }
}

/// Encodes the whole registry to its persisted byte form.
#[verifier::rlimit(100)]
pub fn cache_to_bytes(cache: &ServiceCache) -> (r: Vec<u8>)
    ensures
        r@ == enc_cache(cache.kv()),
        kv_bounded(cache.kv()),
{
    let ghost kv = cache.kv();
    let mut out: Vec<u8> = Vec::new();
    let n = cache.entries.len();
    proof {
        assert(kv.len() == cache.entries@.len());
        assert(kv.len() < u64_bound());
    }
    put_u64(&mut out, n as u64);
    proof {
        assert(out@ =~= enc_u64(n as u64) + enc_entries(kv.take(0)));
    }
    for i in 0..n
        invariant
            kv == cache.kv(),
            n == kv.len(),
            n == cache.entries.len(),
            out@ == enc_u64(n as u64) + enc_entries(kv.take(i as int)),
            forall|k: int| 0 <= k < i ==> str_bounded((#[trigger] kv[k]).0),
            forall|k: int| 0 <= k < i ==> service_bounded((#[trigger] kv[k]).1),
    {
        let ghost before = out@;
        put_str(&mut out, &cache.entries[i].0);
        put_service(&mut out, &cache.entries[i].1);
        proof {
            assert(kv[i as int] == (cache.entries@[i as int].0@, cache.entries@[i as int].1@));
            lemma_enc_entries_snoc(kv.take(i as int), kv[i as int]);
            assert(kv.take(i + 1) =~= kv.take(i as int).push(kv[i as int]));
            let s1 = enc_str(kv[i as int].0);
            let s2 = enc_service(kv[i as int].1);
            let base = enc_u64(n as u64);
            let ei = enc_entries(kv.take(i as int));
            assert(out@ == (before + s1) + s2);
            assert((before + s1) + s2 =~= before + (s1 + s2));
            assert(before + enc_entry(kv[i as int]) =~= (base + ei) + enc_entry(kv[i as int]));
            assert((base + ei) + enc_entry(kv[i as int]) =~= base + (ei + enc_entry(
                kv[i as int],
            )));
            assert(out@ =~= enc_u64(n as u64) + enc_entries(kv.take(i + 1)));
        }
    }
    proof {
        assert(kv.take(n as int) =~= kv);
    }
    out
}

// ------------------------------------------------------------------
// Executable decoder.
// ------------------------------------------------------------------
fn rd_upc(b: &[u8], p: usize) -> (r: Option<(UserProvidedConfig, usize)>)
    requires
        p <= b@.len(),
    ensures
        match r {
            Some((v, q)) => dec_upc(b@, p as int) == Some((v@, q as int)) && p < q <= b@.len(),
            None => dec_upc(b@, p as int) is None,
        },
{
    let (port, p) = match rd_opt_u16(b, p) {
        None => {
            return None;
        },
        Some(x) => x,
    };
    let (replicas, p) = match rd_opt_u16(b, p) {
        None => {
            return None;
        },
        Some(x) => x,
    };
    let (readiness_probe, p) = match rd_opt_str(b, p) {
        None => {
            return None;
        },
        Some(x) => x,
    };
    let (replica_up_check, p) = match rd_opt_str(b, p) {
        None => {
            return None;
        },
        Some(x) => x,
    };
    let (cloud, p) = match rd_opt_str(b, p) {
        None => {
            return None;
        },
        Some(x) => x,
    };
    let (workdir, p) = match rd_opt_str(b, p) {
        None => {
            return None;
        },
        Some(x) => x,
    };
    let (disk_size, p) = match rd_opt_u16(b, p) {
        None => {
            return None;
        },
        Some(x) => x,
    };
    let (cpu, p) = match rd_opt_str(b, p) {
        None => {
            return None;
        },
        Some(x) => x,
    };
    let (memory, p) = match rd_opt_str(b, p) {
        None => {
            return None;
        },
        Some(x) => x,
    };
    let (accelerators, p) = match rd_opt_str(b, p) {
        None => {
            return None;
        },
        Some(x) => x,
    };
    let (setup, p) = match rd_opt_str(b, p) {
        None => {
            return None;
        },
        Some(x) => x,
    };
    let (run, p) = match rd_opt_str(b, p) {
        None => {
            return None;
        },
        Some(x) => x,
    };
    Some(
        (
            UserProvidedConfig {
                port,
                replicas,
                readiness_probe,
                replica_up_check,
                cloud,
                workdir,
                disk_size,
                cpu,
                memory,
                accelerators,
                setup,
                run,
            },
            p,
        ),
    )
}

fn rd_orch(b: &[u8], p: usize) -> (r: Option<(Orchestrators, usize)>)
    requires
        p <= b@.len(),
    ensures
        match r {
            Some((v, q)) => dec_orch(b@, p as int) == Some((v, q as int)) && p < q <= b@.len(),
            None => dec_orch(b@, p as int) is None,
        },
{
    match rd_byte(b, p) {
        None => None,
        Some((t, q)) => {
            if t == 0 {
                Some((Orchestrators::SkyPilot, q))
            } else if t == 1 {
                Some((Orchestrators::Local, q))
            } else {
                None
            }
        },
    }
}

fn rd_service(b: &[u8], p: usize) -> (r: Option<(Service, usize)>)
    requires
        p <= b@.len(),
    ensures
        match r {
            Some((v, q)) => dec_service(b@, p as int) == Some((v@, q as int)) && p < q
                <= b@.len(),
            None => dec_service(b@, p as int) is None,
        },
{
    let (config, p) = match rd_byte(b, p) {
        None => {
            return None;
        },
        Some((t, q)) => {
            if t == 0 {
                (None, q)
            } else if t == 1 {
                match rd_upc(b, q) {
                    None => {
                        return None;
                    },
                    Some((c, q2)) => (Some(c), q2),
                }
            } else {
                return None;
            }
        },
    };
    let (orchestrator, p) = match rd_orch(b, p) {
        None => {
            return None;
        },
        Some(x) => x,
    };
    let (filepath, p) = match rd_opt_str(b, p) {
        None => {
            return None;
        },
        Some(x) => x,
    };
    let (readiness_probe, p) = match rd_str(b, p) {
        None => {
            return None;
        },
        Some(x) => x,
    };
    let (url, p) = match rd_opt_str(b, p) {
        None => {
            return None;
        },
        Some(x) => x,
    };
    let (up, p) = match rd_bool(b, p) {
        None => {
            return None;
        },
        Some(x) => x,
    };
    Some((Service { config, orchestrator, filepath, readiness_probe, url, up }, p))
}

/// Decodes a persisted registry. A payload that is not exactly one encoded
/// registry, or that carries a record claiming to be up without an
/// endpoint, is rejected.
#[verifier::rlimit(100)]
pub fn cache_from_bytes(b: &[u8]) -> (r: Result<ServiceCache, ServicingError>)
    ensures
        match r {
            Ok(c) => {
                &&& c.wf()
                &&& dec_cache(b@) matches Some(kv)
                &&& (dec_cache(b@) matches Some(kv) ==> kv_records_wf(kv) && c@ == kv_to_map(kv))
            },
            Err(e) => {
                &&& e is SerializationFailure
                &&& (dec_cache(b@) matches Some(kv) ==> !kv_records_wf(kv))
            },
        },
{
    let (count, start) = match rd_u64(b, 0) {
        None => {
            return Err(ServicingError::SerializationFailure);
        },
        Some(x) => x,
    };
    let ghost total = count as nat;
    let mut cache = ServiceCache::new();
    let ghost parsed: KvSeq = Seq::empty();
    let mut pos = start;
    let mut i: u64 = 0;
    proof {
        assert(dec_entries(b@, start as int, total) == (match dec_entries(
            b@,
            pos as int,
            (count - i) as nat,
        ) {
            Some((rest, e)) => Some((parsed + rest, e)),
            None => None::<(KvSeq, int)>,
        })) by {
            let d = dec_entries(b@, pos as int, total);
            if d is Some {
                assert(parsed + (d->0).0 =~= (d->0).0);
            }
        }
    }
    while i < count
        invariant
            i <= count,
            total == count as nat,
            pos <= b@.len(),
            dec_u64(b@, 0) == Some((count, start as int)),
            cache.wf(),
            kv_records_wf(parsed),
            cache@ == kv_to_map(parsed),
            dec_entries(b@, start as int, total) == (match dec_entries(
                b@,
                pos as int,
                (count - i) as nat,
            ) {
                Some((rest, e)) => Some((parsed + rest, e)),
                None => None::<(KvSeq, int)>,
            }),
        decreases count - i,
    {
        let (name, p1) = match rd_str(b, pos) {
            None => {
                return Err(ServicingError::SerializationFailure);
            },
            Some(x) => x,
        };
        let (sv, p2) = match rd_service(b, p1) {
            None => {
                return Err(ServicingError::SerializationFailure);
            },
            Some(x) => x,
        };
        proof {
            assert(dec_entries(b@, pos as int, (count - i) as nat) == (match dec_entries(
                b@,
                p2 as int,
                (count - i - 1) as nat,
            ) {
                Some((rest2, e)) => Some((seq![(name@, sv@)] + rest2, e)),
                None => None::<(KvSeq, int)>,
            }));
        }
        if sv.up && sv.url.is_none() {
            proof {
                let dc = dec_cache(b@);
                if dc is Some {
                    let kvfull = dc->0;
                    let de = dec_entries(b@, pos as int, (count - i) as nat);
                    assert(de is Some);
                    let rest = (de->0).0;
                    assert(kvfull == parsed + rest);
                    let inner = dec_entries(b@, p2 as int, (count - i - 1) as nat);
                    assert(inner is Some);
                    assert(rest == seq![(name@, sv@)] + (inner->0).0);
                    assert(rest[0] == (name@, sv@));
                    assert(kvfull[parsed.len() as int] == (name@, sv@));
                    assert(!kvfull[parsed.len() as int].1.wf());
                }
            }
            return Err(ServicingError::SerializationFailure);
        }
        cache.insert(name, sv);
        proof {
            let ghost prev = parsed;
            parsed = parsed.push((name@, sv@));
            assert(kv_to_map(parsed) == kv_to_map(prev).insert(name@, sv@)) by {
                assert(parsed.drop_last() =~= prev);
            }
            assert(kv_records_wf(parsed)) by {
                assert(forall|k: int| 0 <= k < prev.len() ==> parsed[k] == prev[k]);
            }
            assert(dec_entries(b@, start as int, total) == (match dec_entries(
                b@,
                p2 as int,
                (count - i - 1) as nat,
            ) {
                Some((rest2, e)) => Some((parsed + rest2, e)),
                None => None::<(KvSeq, int)>,
            })) by {
                let inner = dec_entries(b@, p2 as int, (count - i - 1) as nat);
                if inner is Some {
                    assert(prev + (seq![(name@, sv@)] + (inner->0).0) =~= parsed + (inner->0).0);
                }
            }
        }
        pos = p2;
        i = i + 1;
    }
    proof {
        assert(dec_entries(b@, pos as int, 0) == Some((Seq::<(Seq<char>, ServiceView)>::empty(), pos as int)));
        assert(parsed + Seq::<(Seq<char>, ServiceView)>::empty() =~= parsed);
        assert(dec_entries(b@, start as int, total) == Some((parsed, pos as int)));
    }
    if pos != b.len() {
        return Err(ServicingError::SerializationFailure);
    }
    Ok(cache)
}

fn rd_opt_u16(b: &[u8], p: usize) -> (r: Option<(Option<u16>, usize)>)
    requires
        p <= b@.len(),
    ensures
        match r {
            Some((v, q)) => dec_opt_u16(b@, p as int) == Some((v, q as int)) && p < q
                <= b@.len(),
            None => dec_opt_u16(b@, p as int) is None,
        },
{
    match rd_byte(b, p) {
        None => None,
        Some((t, q)) => {
            if t == 0 {
                Some((None, q))
            } else if t == 1 {
                match rd_u16(b, q) {
                    None => None,
                    Some((x, q2)) => Some((Some(x), q2)),
                }
            } else {
                None
            }
        },
    }
}

} // verus!
