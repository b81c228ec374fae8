//! Byte serialization of Pmt values with a proved round trip.
//!
//! The format is tag-byte plus payload; counts and integers are
//! little-endian, strings are a character count followed by one 32-bit
//! scalar value per character.

use vstd::prelude::*;
use crate::pmt::Pmt;
use crate::pmt::PmtV;
use crate::pmt::pmtv;
use crate::pmt::pmtv_list;
use crate::pmt::pmtv_entries;
use crate::pmt::bounded_v;
use vstd::utf8::is_scalar;
use vstd::utf8::char_is_scalar;
use vstd::utf8::char_u32_cast;

verus! {

/// Little-endian bytes of a 64-bit integer.
pub open spec fn u64_le(v: u64) -> Seq<u8> {
    seq![
        (v & 0xff) as u8,
        ((v >> 8) & 0xff) as u8,
        ((v >> 16) & 0xff) as u8,
        ((v >> 24) & 0xff) as u8,
        ((v >> 32) & 0xff) as u8,
        ((v >> 40) & 0xff) as u8,
        ((v >> 48) & 0xff) as u8,
        ((v >> 56) & 0xff) as u8,
    ]
}

/// Little-endian bytes of a 32-bit integer.
pub open spec fn u32_le(v: u32) -> Seq<u8> {
    seq![(v & 0xff) as u8, ((v >> 8) & 0xff) as u8, ((v >> 16) & 0xff) as u8, ((v >> 24) & 0xff) as u8]
}

/// A 64-bit integer recombined from eight little-endian bytes.
pub open spec fn u64_from(b0: u8, b1: u8, b2: u8, b3: u8, b4: u8, b5: u8, b6: u8, b7: u8) -> u64 {
    (b0 as u64) | ((b1 as u64) << 8) | ((b2 as u64) << 16) | ((b3 as u64) << 24)
        | ((b4 as u64) << 32) | ((b5 as u64) << 40) | ((b6 as u64) << 48) | ((b7 as u64) << 56)
}

/// A 32-bit integer recombined from four little-endian bytes.
pub open spec fn u32_from(b0: u8, b1: u8, b2: u8, b3: u8) -> u32 {
    (b0 as u32) | ((b1 as u32) << 8) | ((b2 as u32) << 16) | ((b3 as u32) << 24)
}

/// The 64-bit integer at the head of a byte stream.
pub open spec fn read_u64(s: Seq<u8>) -> u64
    recommends
        s.len() >= 8,
{
    u64_from(s[0], s[1], s[2], s[3], s[4], s[5], s[6], s[7])
}

/// The 32-bit integer at the head of a byte stream.
pub open spec fn read_u32(s: Seq<u8>) -> u32
    recommends
        s.len() >= 4,
{
    u32_from(s[0], s[1], s[2], s[3])
}

/// Encoding of a character sequence, one 32-bit scalar per character.
pub open spec fn enc_chars(cs: Seq<char>) -> Seq<u8>
    decreases cs,
{
    if cs.len() == 0 {
        Seq::empty()
    } else {
        u32_le(cs[0] as u32) + enc_chars(cs.drop_first())
    }
}

/// Encoding of a 32-bit integer sequence.
pub open spec fn enc_u32s(vs: Seq<u32>) -> Seq<u8>
    decreases vs,
{
    if vs.len() == 0 {
        Seq::empty()
    } else {
        u32_le(vs[0]) + enc_u32s(vs.drop_first())
    }
}

/// Encoding of a 64-bit integer sequence.
pub open spec fn enc_u64s(vs: Seq<u64>) -> Seq<u8>
    decreases vs,
{
    if vs.len() == 0 {
        Seq::empty()
    } else {
        u64_le(vs[0]) + enc_u64s(vs.drop_first())
    }
}

/// Encoding of a Pmt model value.
pub open spec fn enc_v(m: PmtV) -> Seq<u8>
    decreases m, 0int,
{
    match m {
        PmtV::Okay => seq![0u8],
        PmtV::InvalidValue => seq![1u8],
        PmtV::Null => seq![2u8],
        PmtV::Str(cs) => seq![3u8] + u64_le(cs.len() as u64) + enc_chars(cs),
        PmtV::Bool(b) => seq![4u8, if b { 1u8 } else { 0u8 }],
        PmtV::Usize(v) => seq![5u8] + u64_le(v as u64),
        PmtV::U32(v) => seq![6u8] + u32_le(v),
        PmtV::U64(v) => seq![7u8] + u64_le(v),
        PmtV::F32(v) => seq![8u8] + u32_le(v),
        PmtV::F64(v) => seq![9u8] + u64_le(v),
        PmtV::VecF32(vs) => seq![10u8] + u64_le(vs.len() as u64) + enc_u32s(vs),
        PmtV::VecU64(vs) => seq![11u8] + u64_le(vs.len() as u64) + enc_u64s(vs),
        PmtV::Blob(bs) => seq![12u8] + u64_le(bs.len() as u64) + bs,
        PmtV::VecPmt(ms) => seq![13u8] + u64_le(ms.len() as u64) + enc_vlist(ms),
        PmtV::Finished => seq![14u8],
        PmtV::MapStrPmt(es) => seq![15u8] + u64_le(es.len() as u64) + enc_vmap(es),
    }
}

/// Concatenated encodings of a sequence of model values.
pub open spec fn enc_vlist(ms: Seq<PmtV>) -> Seq<u8>
    decreases ms, 1int,
{
    if ms.len() == 0 {
        Seq::empty()
    } else {
        enc_v(ms[0]) + enc_vlist(ms.drop_first())
    }
}

/// Concatenated encodings of map entries: key length, key characters, value.
pub open spec fn enc_vmap(es: Seq<(Seq<char>, PmtV)>) -> Seq<u8>
    decreases es, 1int,
{
    if es.len() == 0 {
        Seq::empty()
    } else {
        u64_le(es[0].0.len() as u64) + enc_chars(es[0].0) + enc_v(es[0].1)
            + enc_vmap(es.drop_first())
    }
}

/// Decodes `n` characters from the head of the stream.
pub open spec fn dec_chars(n: nat, s: Seq<u8>) -> Option<(Seq<char>, Seq<u8>)>
    decreases n,
{
    if n == 0 {
        Some((Seq::empty(), s))
    } else if s.len() >= 4 {
        let v = read_u32(s);
        if is_scalar(v) {
            match dec_chars((n - 1) as nat, s.skip(4)) {
                Some((cs, r)) => Some((seq![v as char] + cs, r)),
                None => None,
            }
        } else {
            None
        }
    } else {
        None
    }
}

/// Decodes `n` 32-bit integers from the head of the stream.
pub open spec fn dec_u32s(n: nat, s: Seq<u8>) -> Option<(Seq<u32>, Seq<u8>)>
    decreases n,
{
    if n == 0 {
        Some((Seq::empty(), s))
    } else if s.len() >= 4 {
        match dec_u32s((n - 1) as nat, s.skip(4)) {
            Some((vs, r)) => Some((seq![read_u32(s)] + vs, r)),
            None => None,
        }
    } else {
        None
    }
}

/// Decodes `n` 64-bit integers from the head of the stream.
pub open spec fn dec_u64s(n: nat, s: Seq<u8>) -> Option<(Seq<u64>, Seq<u8>)>
    decreases n,
{
    if n == 0 {
        Some((Seq::empty(), s))
    } else if s.len() >= 8 {
        match dec_u64s((n - 1) as nat, s.skip(8)) {
            Some((vs, r)) => Some((seq![read_u64(s)] + vs, r)),
            None => None,
        }
    } else {
        None
    }
}

/// Decodes one model value from the head of the stream, returning it and
/// the unread remainder.
pub open spec fn dec_v(s: Seq<u8>) -> Option<(PmtV, Seq<u8>)>
    decreases s.len(), 0int, 0int,
{
    if s.len() == 0 {
        None
    } else {
        let t = s[0];
        let r = s.drop_first();
        if t == 0 {
            Some((PmtV::Okay, r))
        } else if t == 1 {
            Some((PmtV::InvalidValue, r))
        } else if t == 2 {
            Some((PmtV::Null, r))
        } else if t == 3 {
            if r.len() >= 8 {
                match dec_chars(read_u64(r) as nat, r.skip(8)) {
                    Some((cs, r2)) => Some((PmtV::Str(cs), r2)),
                    None => None,
                }
            } else {
                None
            }
        } else if t == 4 {
            if r.len() >= 1 && (r[0] == 0 || r[0] == 1) {
                Some((PmtV::Bool(r[0] == 1), r.drop_first()))
            } else {
                None
            }
        } else if t == 5 {
            if r.len() >= 8 && read_u64(r) <= usize::MAX as u64 {
                Some((PmtV::Usize(read_u64(r) as usize), r.skip(8)))
            } else {
                None
            }
        } else if t == 6 {
            if r.len() >= 4 {
                Some((PmtV::U32(read_u32(r)), r.skip(4)))
            } else {
                None
            }
        } else if t == 7 {
            if r.len() >= 8 {
                Some((PmtV::U64(read_u64(r)), r.skip(8)))
            } else {
                None
            }
        } else if t == 8 {
            if r.len() >= 4 {
                Some((PmtV::F32(read_u32(r)), r.skip(4)))
            } else {
                None
            }
        } else if t == 9 {
            if r.len() >= 8 {
                Some((PmtV::F64(read_u64(r)), r.skip(8)))
            } else {
                None
            }
        } else if t == 10 {
            if r.len() >= 8 {
                match dec_u32s(read_u64(r) as nat, r.skip(8)) {
                    Some((vs, r2)) => Some((PmtV::VecF32(vs), r2)),
                    None => None,
                }
            } else {
                None
            }
        } else if t == 11 {
            if r.len() >= 8 {
                match dec_u64s(read_u64(r) as nat, r.skip(8)) {
                    Some((vs, r2)) => Some((PmtV::VecU64(vs), r2)),
                    None => None,
                }
            } else {
                None
            }
        } else if t == 12 {
            if r.len() >= 8 && r.skip(8).len() >= read_u64(r) as int {
                Some(
                    (
                        PmtV::Blob(r.skip(8).take(read_u64(r) as int)),
                        r.skip(8).skip(read_u64(r) as int),
                    ),
                )
            } else {
                None
            }
        } else if t == 13 {
            if r.len() >= 8 {
                match dec_vlist(read_u64(r) as nat, r.skip(8)) {
                    Some((ms, r2)) => Some((PmtV::VecPmt(ms), r2)),
                    None => None,
                }
            } else {
                None
            }
        } else if t == 14 {
            Some((PmtV::Finished, r))
        } else if t == 15 {
            if r.len() >= 8 {
                match dec_vmap(read_u64(r) as nat, r.skip(8)) {
                    Some((es, r2)) => Some((PmtV::MapStrPmt(es), r2)),
                    None => None,
                }
            } else {
                None
            }
        } else {
            None
        }
    }
}

/// Decodes `n` model values from the head of the stream.
pub open spec fn dec_vlist(n: nat, s: Seq<u8>) -> Option<(Seq<PmtV>, Seq<u8>)>
    decreases s.len(), 1int, n,
{
    if n == 0 {
        Some((Seq::empty(), s))
    } else {
        match dec_v(s) {
            None => None,
            Some((m, s2)) => {
                if s2.len() < s.len() {
                    match dec_vlist((n - 1) as nat, s2) {
                        None => None,
                        Some((ms, s3)) => Some((seq![m] + ms, s3)),
                    }
                } else {
                    None
                }
            },
        }
    }
}

/// Decodes `n` map entries from the head of the stream.
pub open spec fn dec_vmap(n: nat, s: Seq<u8>) -> Option<(Seq<(Seq<char>, PmtV)>, Seq<u8>)>
    decreases s.len(), 1int, n,
{
    if n == 0 {
        Some((Seq::empty(), s))
    } else if s.len() >= 8 {
        match dec_chars(read_u64(s) as nat, s.skip(8)) {
            None => None,
            Some((ks, s2)) => {
                if s2.len() < s.len() {
                    match dec_v(s2) {
                        None => None,
                        Some((m, s3)) => {
                            if s3.len() < s.len() {
                                match dec_vmap((n - 1) as nat, s3) {
                                    None => None,
                                    Some((es, s4)) => Some((seq![(ks, m)] + es, s4)),
                                }
                            } else {
                                None
                            }
                        },
                    }
                } else {
                    None
                }
            },
        }
    } else {
        None
    }
}

/// Reading back the little-endian bytes of a 64-bit integer yields the
/// integer.
pub proof fn lemma_read_u64(v: u64, rest: Seq<u8>)
    ensures
        (u64_le(v) + rest).len() == 8 + rest.len(),
        read_u64(u64_le(v) + rest) == v,
        (u64_le(v) + rest).skip(8) =~= rest,
{
    let s = u64_le(v) + rest;
    assert(s[0] == (v & 0xff) as u8);
    assert(s[1] == ((v >> 8) & 0xff) as u8);
    assert(s[2] == ((v >> 16) & 0xff) as u8);
    assert(s[3] == ((v >> 24) & 0xff) as u8);
    assert(s[4] == ((v >> 32) & 0xff) as u8);
    assert(s[5] == ((v >> 40) & 0xff) as u8);
    assert(s[6] == ((v >> 48) & 0xff) as u8);
    assert(s[7] == ((v >> 56) & 0xff) as u8);
    assert(u64_from(
        (v & 0xff) as u8,
        ((v >> 8) & 0xff) as u8,
        ((v >> 16) & 0xff) as u8,
        ((v >> 24) & 0xff) as u8,
        ((v >> 32) & 0xff) as u8,
        ((v >> 40) & 0xff) as u8,
        ((v >> 48) & 0xff) as u8,
        ((v >> 56) & 0xff) as u8,
    ) == v) by {
        assert((((v & 0xff) as u8) as u64) | ((((v >> 8) & 0xff) as u8 as u64) << 8)
            | ((((v >> 16) & 0xff) as u8 as u64) << 16) | ((((v >> 24) & 0xff) as u8 as u64) << 24)
            | ((((v >> 32) & 0xff) as u8 as u64) << 32) | ((((v >> 40) & 0xff) as u8 as u64) << 40)
            | ((((v >> 48) & 0xff) as u8 as u64) << 48) | ((((v >> 56) & 0xff) as u8 as u64) << 56)
            == v) by (bit_vector);
    }
}

/// Reading back the little-endian bytes of a 32-bit integer yields the
/// integer.
pub proof fn lemma_read_u32(v: u32, rest: Seq<u8>)
    ensures
        (u32_le(v) + rest).len() == 4 + rest.len(),
        read_u32(u32_le(v) + rest) == v,
        (u32_le(v) + rest).skip(4) =~= rest,
{
    let s = u32_le(v) + rest;
    assert(s[0] == (v & 0xff) as u8);
    assert(s[1] == ((v >> 8) & 0xff) as u8);
    assert(s[2] == ((v >> 16) & 0xff) as u8);
    assert(s[3] == ((v >> 24) & 0xff) as u8);
    assert(u32_from(
        (v & 0xff) as u8,
        ((v >> 8) & 0xff) as u8,
        ((v >> 16) & 0xff) as u8,
        ((v >> 24) & 0xff) as u8,
    ) == v) by {
        assert((((v & 0xff) as u8) as u32) | ((((v >> 8) & 0xff) as u8 as u32) << 8)
            | ((((v >> 16) & 0xff) as u8 as u32) << 16) | ((((v >> 24) & 0xff) as u8 as u32) << 24)
            == v) by (bit_vector);
    }
}

/// Decoding the encoding of a character sequence yields it back.
pub proof fn lemma_chars_rt(cs: Seq<char>, rest: Seq<u8>)
    ensures
        enc_chars(cs).len() == 4 * cs.len(),
        dec_chars(cs.len(), enc_chars(cs) + rest) == Some((cs, rest)),
    decreases cs,
{
    if cs.len() == 0 {
        assert(enc_chars(cs) + rest =~= rest);
    } else {
        let c = cs[0];
        let tail = cs.drop_first();
        lemma_chars_rt(tail, rest);
        let s = enc_chars(cs) + rest;
        assert(s =~= u32_le(c as u32) + (enc_chars(tail) + rest));
        lemma_read_u32(c as u32, enc_chars(tail) + rest);
        char_is_scalar(c);
        char_u32_cast(c, c as u32);
        assert(seq![(read_u32(s) as char)] + tail =~= cs);
    }
}

/// Decoding the encoding of a 32-bit integer sequence yields it back.
pub proof fn lemma_u32s_rt(vs: Seq<u32>, rest: Seq<u8>)
    ensures
        enc_u32s(vs).len() == 4 * vs.len(),
        dec_u32s(vs.len(), enc_u32s(vs) + rest) == Some((vs, rest)),
    decreases vs,
{
    if vs.len() == 0 {
        assert(enc_u32s(vs) + rest =~= rest);
    } else {
        let tail = vs.drop_first();
        lemma_u32s_rt(tail, rest);
        let s = enc_u32s(vs) + rest;
        assert(s =~= u32_le(vs[0]) + (enc_u32s(tail) + rest));
        lemma_read_u32(vs[0], enc_u32s(tail) + rest);
        assert(seq![read_u32(s)] + tail =~= vs);
    }
}

/// Decoding the encoding of a 64-bit integer sequence yields it back.
pub proof fn lemma_u64s_rt(vs: Seq<u64>, rest: Seq<u8>)
    ensures
        enc_u64s(vs).len() == 8 * vs.len(),
        dec_u64s(vs.len(), enc_u64s(vs) + rest) == Some((vs, rest)),
    decreases vs,
{
    if vs.len() == 0 {
        assert(enc_u64s(vs) + rest =~= rest);
    } else {
        let tail = vs.drop_first();
        lemma_u64s_rt(tail, rest);
        let s = enc_u64s(vs) + rest;
        assert(s =~= u64_le(vs[0]) + (enc_u64s(tail) + rest));
        lemma_read_u64(vs[0], enc_u64s(tail) + rest);
        assert(seq![read_u64(s)] + tail =~= vs);
    }
}

/// Round trip for the payload-free and fixed-size variants.
#[verifier::rlimit(100)]
proof fn lemma_codec_rt_flat(m: PmtV, rest: Seq<u8>)
    requires
        !(m is Str),
        !(m is VecF32),
        !(m is VecU64),
        !(m is Blob),
        !(m is VecPmt),
        !(m is MapStrPmt),
    ensures
        enc_v(m).len() >= 1,
        dec_v(enc_v(m) + rest) == Some((m, rest)),
{
    let s = enc_v(m) + rest;
    match m {
        PmtV::Okay => {
            assert(s.drop_first() =~= rest);
        },
        PmtV::InvalidValue => {
            assert(s.drop_first() =~= rest);
        },
        PmtV::Null => {
            assert(s.drop_first() =~= rest);
        },
        PmtV::Finished => {
            assert(s.drop_first() =~= rest);
        },
        PmtV::Bool(b) => {
            assert(s.drop_first() =~= seq![if b { 1u8 } else { 0u8 }] + rest);
            assert(s.drop_first().drop_first() =~= rest);
        },
        PmtV::Usize(v) => {
            assert(s.drop_first() =~= u64_le(v as u64) + rest);
            lemma_read_u64(v as u64, rest);
            assert(v as u64 <= usize::MAX as u64);
        },
        PmtV::U32(v) => {
            assert(s.drop_first() =~= u32_le(v) + rest);
            lemma_read_u32(v, rest);
        },
        PmtV::U64(v) => {
            assert(s.drop_first() =~= u64_le(v) + rest);
            lemma_read_u64(v, rest);
        },
        PmtV::F32(v) => {
            assert(s.drop_first() =~= u32_le(v) + rest);
            lemma_read_u32(v, rest);
        },
        PmtV::F64(v) => {
            assert(s.drop_first() =~= u64_le(v) + rest);
            lemma_read_u64(v, rest);
        },
        _ => {},
    }
}

/// Round trip for the variants that carry one counted sequence.
#[verifier::rlimit(100)]
proof fn lemma_codec_rt_counted(m: PmtV, rest: Seq<u8>)
    requires
        bounded_v(m),
        m is Str || m is VecF32 || m is VecU64 || m is Blob,
    ensures
        enc_v(m).len() >= 1,
        dec_v(enc_v(m) + rest) == Some((m, rest)),
{
    let s = enc_v(m) + rest;
    match m {
        PmtV::Str(cs) => {
            let body = enc_chars(cs) + rest;
            assert(s.drop_first() =~= u64_le(cs.len() as u64) + body);
            lemma_read_u64(cs.len() as u64, body);
            lemma_chars_rt(cs, rest);
            assert((u64_le(cs.len() as u64) + body).skip(8) =~= body);
        },
        PmtV::VecF32(vs) => {
            let body = enc_u32s(vs) + rest;
            assert(s.drop_first() =~= u64_le(vs.len() as u64) + body);
            lemma_read_u64(vs.len() as u64, body);
            lemma_u32s_rt(vs, rest);
            assert((u64_le(vs.len() as u64) + body).skip(8) =~= body);
        },
        PmtV::VecU64(vs) => {
            let body = enc_u64s(vs) + rest;
            assert(s.drop_first() =~= u64_le(vs.len() as u64) + body);
            lemma_read_u64(vs.len() as u64, body);
            lemma_u64s_rt(vs, rest);
            assert((u64_le(vs.len() as u64) + body).skip(8) =~= body);
        },
        PmtV::Blob(bs) => {
            let body = bs + rest;
            assert(s.drop_first() =~= u64_le(bs.len() as u64) + body);
            lemma_read_u64(bs.len() as u64, body);
            assert((u64_le(bs.len() as u64) + body).skip(8) =~= body);
            assert(body.take(bs.len() as int) =~= bs);
            assert(body.skip(bs.len() as int) =~= rest);
        },
        _ => {},
    }
}

/// The codec round trip: decoding the encoding of any bounded model
/// value yields that value and leaves the rest of the stream unread.
#[verifier::rlimit(100)]
pub proof fn lemma_codec_rt(m: PmtV, rest: Seq<u8>)
    requires
        bounded_v(m),
    ensures
        enc_v(m).len() >= 1,
        dec_v(enc_v(m) + rest) == Some((m, rest)),
    decreases m, 0int,
{
    let s = enc_v(m) + rest;
    match m {
        PmtV::VecPmt(ms) => {
            let body = enc_vlist(ms) + rest;
            assert(s.drop_first() =~= u64_le(ms.len() as u64) + body);
            lemma_read_u64(ms.len() as u64, body);
            assert((u64_le(ms.len() as u64) + body).skip(8) =~= body);
            lemma_codec_rt_list(ms, rest);
        },
        PmtV::MapStrPmt(es) => {
            let body = enc_vmap(es) + rest;
            assert(s.drop_first() =~= u64_le(es.len() as u64) + body);
            lemma_read_u64(es.len() as u64, body);
            assert((u64_le(es.len() as u64) + body).skip(8) =~= body);
            lemma_codec_rt_map(es, rest);
        },
        PmtV::Str(cs) => {
            lemma_codec_rt_counted(m, rest);
        },
        PmtV::VecF32(vs) => {
            lemma_codec_rt_counted(m, rest);
        },
        PmtV::VecU64(vs) => {
            lemma_codec_rt_counted(m, rest);
        },
        PmtV::Blob(bs) => {
            lemma_codec_rt_counted(m, rest);
        },
        _ => {
            lemma_codec_rt_flat(m, rest);
        },
    }
}

/// Round trip for a sequence of model values.
pub proof fn lemma_codec_rt_list(ms: Seq<PmtV>, rest: Seq<u8>)
    requires
        forall|i: int| 0 <= i < ms.len() ==> bounded_v(#[trigger] ms[i]),
    ensures
        dec_vlist(ms.len(), enc_vlist(ms) + rest) == Some((ms, rest)),
    decreases ms, 1int,
{
    if ms.len() == 0 {
        assert(enc_vlist(ms) + rest =~= rest);
    } else {
        let head = ms[0];
        let tail = ms.drop_first();
        let tail_bytes = enc_vlist(tail) + rest;
        assert(enc_vlist(ms) + rest =~= enc_v(head) + tail_bytes);
        lemma_codec_rt(head, tail_bytes);
        lemma_codec_rt_list(tail, rest);
        assert(seq![head] + tail =~= ms);
    }
}

/// Round trip for a sequence of map entries.
pub proof fn lemma_codec_rt_map(es: Seq<(Seq<char>, PmtV)>, rest: Seq<u8>)
    requires
        forall|i: int|
            0 <= i < es.len() ==> (#[trigger] es[i]).0.len() <= u64::MAX && bounded_v(es[i].1),
    ensures
        dec_vmap(es.len(), enc_vmap(es) + rest) == Some((es, rest)),
    decreases es, 1int,
{
    if es.len() == 0 {
        assert(enc_vmap(es) + rest =~= rest);
    } else {
        let key = es[0].0;
        let val = es[0].1;
        let tail = es.drop_first();
        let tail_bytes = enc_vmap(tail) + rest;
        let val_bytes = enc_v(val) + tail_bytes;
        let key_bytes = enc_chars(key) + val_bytes;
        let s = enc_vmap(es) + rest;
        assert(s =~= u64_le(key.len() as u64) + key_bytes);
        lemma_read_u64(key.len() as u64, key_bytes);
        assert((u64_le(key.len() as u64) + key_bytes).skip(8) =~= key_bytes);
        lemma_chars_rt(key, val_bytes);
        lemma_codec_rt(val, tail_bytes);
        lemma_codec_rt_map(tail, rest);
        assert(seq![(key, val)] + tail =~= es);
    }
}

/// Appending one character extends the encoding by its scalar.
proof fn lemma_enc_chars_snoc(cs: Seq<char>, c: char)
    ensures
        enc_chars(cs.push(c)) == enc_chars(cs) + u32_le(c as u32),
    decreases cs,
{
    if cs.len() == 0 {
        assert(cs.push(c).drop_first() =~= Seq::<char>::empty());
        assert(cs.push(c)[0] == c);
        assert(enc_chars(Seq::<char>::empty()) =~= Seq::<u8>::empty());
        assert(enc_chars(cs.push(c)) =~= u32_le(c as u32));
        assert(enc_chars(cs) + u32_le(c as u32) =~= u32_le(c as u32));
    } else {
        lemma_enc_chars_snoc(cs.drop_first(), c);
        assert(cs.push(c).drop_first() =~= cs.drop_first().push(c));
        assert(cs.push(c)[0] == cs[0]);
        assert(enc_chars(cs.push(c)) =~= u32_le(cs[0] as u32) + (enc_chars(cs.drop_first())
            + u32_le(c as u32)));
        assert(enc_chars(cs) + u32_le(c as u32) =~= u32_le(cs[0] as u32) + (enc_chars(
            cs.drop_first(),
        ) + u32_le(c as u32)));
    }
}

/// Appending one integer extends the encoding by its bytes.
proof fn lemma_enc_u32s_snoc(vs: Seq<u32>, v: u32)
    ensures
        enc_u32s(vs.push(v)) == enc_u32s(vs) + u32_le(v),
    decreases vs,
{
    if vs.len() == 0 {
        assert(vs.push(v).drop_first() =~= Seq::<u32>::empty());
        assert(vs.push(v)[0] == v);
        assert(enc_u32s(Seq::<u32>::empty()) =~= Seq::<u8>::empty());
        assert(enc_u32s(vs.push(v)) =~= u32_le(v));
        assert(enc_u32s(vs) + u32_le(v) =~= u32_le(v));
    } else {
        lemma_enc_u32s_snoc(vs.drop_first(), v);
        assert(vs.push(v).drop_first() =~= vs.drop_first().push(v));
        assert(vs.push(v)[0] == vs[0]);
        assert(enc_u32s(vs.push(v)) =~= u32_le(vs[0]) + (enc_u32s(vs.drop_first()) + u32_le(v)));
        assert(enc_u32s(vs) + u32_le(v) =~= u32_le(vs[0]) + (enc_u32s(vs.drop_first()) + u32_le(
            v,
        )));
    }
}

/// Appending one integer extends the encoding by its bytes.
proof fn lemma_enc_u64s_snoc(vs: Seq<u64>, v: u64)
    ensures
        enc_u64s(vs.push(v)) == enc_u64s(vs) + u64_le(v),
    decreases vs,
{
    if vs.len() == 0 {
        assert(vs.push(v).drop_first() =~= Seq::<u64>::empty());
        assert(vs.push(v)[0] == v);
        assert(enc_u64s(Seq::<u64>::empty()) =~= Seq::<u8>::empty());
        assert(enc_u64s(vs.push(v)) =~= u64_le(v));
        assert(enc_u64s(vs) + u64_le(v) =~= u64_le(v));
    } else {
        lemma_enc_u64s_snoc(vs.drop_first(), v);
        assert(vs.push(v).drop_first() =~= vs.drop_first().push(v));
        assert(vs.push(v)[0] == vs[0]);
        assert(enc_u64s(vs.push(v)) =~= u64_le(vs[0]) + (enc_u64s(vs.drop_first()) + u64_le(v)));
        assert(enc_u64s(vs) + u64_le(v) =~= u64_le(vs[0]) + (enc_u64s(vs.drop_first()) + u64_le(
            v,
        )));
    }
}

/// Appending one value extends the list encoding by its encoding.
proof fn lemma_enc_vlist_snoc(ms: Seq<PmtV>, m: PmtV)
    ensures
        enc_vlist(ms.push(m)) == enc_vlist(ms) + enc_v(m),
    decreases ms,
{
    if ms.len() == 0 {
        assert(ms.push(m).drop_first() =~= Seq::<PmtV>::empty());
        assert(ms.push(m)[0] == m);
        assert(enc_vlist(Seq::<PmtV>::empty()) =~= Seq::<u8>::empty());
        assert(enc_vlist(ms.push(m)) =~= enc_v(m));
        assert(enc_vlist(ms) + enc_v(m) =~= enc_v(m));
    } else {
        lemma_enc_vlist_snoc(ms.drop_first(), m);
        assert(ms.push(m).drop_first() =~= ms.drop_first().push(m));
        assert(ms.push(m)[0] == ms[0]);
        assert(enc_vlist(ms.push(m)) =~= enc_v(ms[0]) + (enc_vlist(ms.drop_first()) + enc_v(m)));
        assert(enc_vlist(ms) + enc_v(m) =~= enc_v(ms[0]) + (enc_vlist(ms.drop_first()) + enc_v(
            m,
        )));
    }
}

/// Appending one entry extends the map encoding by its encoding.
proof fn lemma_enc_vmap_snoc(es: Seq<(Seq<char>, PmtV)>, e: (Seq<char>, PmtV))
    ensures
        enc_vmap(es.push(e)) == enc_vmap(es) + (u64_le(e.0.len() as u64) + enc_chars(e.0)
            + enc_v(e.1)),
    decreases es,
{
    let tail = u64_le(e.0.len() as u64) + enc_chars(e.0) + enc_v(e.1);
    if es.len() == 0 {
        assert(es.push(e).drop_first() =~= Seq::<(Seq<char>, PmtV)>::empty());
        assert(es.push(e)[0] == e);
        assert(enc_vmap(Seq::<(Seq<char>, PmtV)>::empty()) =~= Seq::<u8>::empty());
        assert(enc_vmap(es.push(e)) =~= tail);
        assert(enc_vmap(es) + tail =~= tail);
    } else {
        lemma_enc_vmap_snoc(es.drop_first(), e);
        assert(es.push(e).drop_first() =~= es.drop_first().push(e));
        assert(es.push(e)[0] == es[0]);
        let head = u64_le(es[0].0.len() as u64) + enc_chars(es[0].0) + enc_v(es[0].1);
        assert(enc_vmap(es.push(e)) =~= head + (enc_vmap(es.drop_first()) + tail));
        assert(enc_vmap(es) + tail =~= head + (enc_vmap(es.drop_first()) + tail));
    }
}

/// Appends the little-endian bytes of a 64-bit integer.
fn push_u64(out: &mut Vec<u8>, v: u64)
    ensures
        final(out)@ == old(out)@ + u64_le(v),
{
    out.push((v & 0xff) as u8);
    out.push(((v >> 8) & 0xff) as u8);
    out.push(((v >> 16) & 0xff) as u8);
    out.push(((v >> 24) & 0xff) as u8);
    out.push(((v >> 32) & 0xff) as u8);
    out.push(((v >> 40) & 0xff) as u8);
    out.push(((v >> 48) & 0xff) as u8);
    out.push(((v >> 56) & 0xff) as u8);
    proof {
        assert(out@ =~= old(out)@ + u64_le(v));
    }
}

/// Appends the little-endian bytes of a 32-bit integer.
fn push_u32(out: &mut Vec<u8>, v: u32)
    ensures
        final(out)@ == old(out)@ + u32_le(v),
{
    out.push((v & 0xff) as u8);
    out.push(((v >> 8) & 0xff) as u8);
    out.push(((v >> 16) & 0xff) as u8);
    out.push(((v >> 24) & 0xff) as u8);
    proof {
        assert(out@ =~= old(out)@ + u32_le(v));
    }
}

/// Appends the character-wise encoding of a string.
fn push_chars(out: &mut Vec<u8>, s: &str)
    ensures
        final(out)@ == old(out)@ + enc_chars(s@),
{
    let n = s.unicode_len();
    let mut j: usize = 0;
    proof {
        assert(enc_chars(s@.take(0)) =~= Seq::<u8>::empty());
        assert(old(out)@ + enc_chars(s@.take(0)) =~= old(out)@);
    }
    while j < n
        invariant
            0 <= j <= n,
            n == s@.len(),
            out@ =~= old(out)@ + enc_chars(s@.take(j as int)),
        decreases n - j,
    {
        let c = s.get_char(j);
        push_u32(out, c as u32);
        proof {
            assert(s@.take(j + 1) =~= s@.take(j as int).push(s@[j as int]));
            lemma_enc_chars_snoc(s@.take(j as int), s@[j as int]);
            assert(out@ =~= old(out)@ + enc_chars(s@.take(j + 1)));
        }
        j = j + 1;
    }
    proof {
        assert(s@.take(s@.len() as int) =~= s@);
    }
}

/// Appends the encoding of a Pmt value.
#[verifier::rlimit(100)]
pub fn encode_pmt(p: &Pmt, out: &mut Vec<u8>)
    ensures
        final(out)@ == old(out)@ + enc_v(pmtv(*p)),
    decreases *p,
{
    match p {
        Pmt::Okay => {
            out.push(0u8);
            proof {
                assert(out@ =~= old(out)@ + enc_v(pmtv(*p)));
            }
        },
        Pmt::InvalidValue => {
            out.push(1u8);
            proof {
                assert(out@ =~= old(out)@ + enc_v(pmtv(*p)));
            }
        },
        Pmt::Null => {
            out.push(2u8);
            proof {
                assert(out@ =~= old(out)@ + enc_v(pmtv(*p)));
            }
        },
        Pmt::Str(sref) => {
            out.push(3u8);
            push_u64(out, sref.as_str().unicode_len() as u64);
            push_chars(out, sref.as_str());
            proof {
                assert(out@ =~= old(out)@ + enc_v(pmtv(*p)));
            }
        },
        Pmt::Bool(b) => {
            out.push(4u8);
            if *b {
                out.push(1u8);
            } else {
                out.push(0u8);
            }
            proof {
                assert(out@ =~= old(out)@ + enc_v(pmtv(*p)));
            }
        },
        Pmt::Usize(v) => {
            out.push(5u8);
            push_u64(out, *v as u64);
            proof {
                assert(out@ =~= old(out)@ + enc_v(pmtv(*p)));
            }
        },
        Pmt::U32(v) => {
            out.push(6u8);
            push_u32(out, *v);
            proof {
                assert(out@ =~= old(out)@ + enc_v(pmtv(*p)));
            }
        },
        Pmt::U64(v) => {
            out.push(7u8);
            push_u64(out, *v);
            proof {
                assert(out@ =~= old(out)@ + enc_v(pmtv(*p)));
            }
        },
        Pmt::F32(v) => {
            out.push(8u8);
            push_u32(out, *v);
            proof {
                assert(out@ =~= old(out)@ + enc_v(pmtv(*p)));
            }
        },
        Pmt::F64(v) => {
            out.push(9u8);
            push_u64(out, *v);
            proof {
                assert(out@ =~= old(out)@ + enc_v(pmtv(*p)));
            }
        },
        Pmt::VecF32(vs) => {
            out.push(10u8);
            push_u64(out, vs.len() as u64);
            let ghost mid = out@;
            let mut i: usize = 0;
            proof {
                assert(enc_u32s(vs@.take(0)) =~= Seq::<u8>::empty());
                assert(mid + enc_u32s(vs@.take(0)) =~= mid);
            }
            while i < vs.len()
                invariant
                    0 <= i <= vs@.len(),
                    out@ =~= mid + enc_u32s(vs@.take(i as int)),
                decreases vs@.len() - i,
            {
                push_u32(out, vs[i]);
                proof {
                    assert(vs@.take(i + 1) =~= vs@.take(i as int).push(vs@[i as int]));
                    lemma_enc_u32s_snoc(vs@.take(i as int), vs@[i as int]);
                }
                i = i + 1;
            }
            proof {
                assert(vs@.take(vs@.len() as int) =~= vs@);
                assert(out@ =~= old(out)@ + enc_v(pmtv(*p)));
            }
        },
        Pmt::VecU64(vs) => {
            out.push(11u8);
            push_u64(out, vs.len() as u64);
            let ghost mid = out@;
            let mut i: usize = 0;
            proof {
                assert(enc_u64s(vs@.take(0)) =~= Seq::<u8>::empty());
                assert(mid + enc_u64s(vs@.take(0)) =~= mid);
            }
            while i < vs.len()
                invariant
                    0 <= i <= vs@.len(),
                    out@ =~= mid + enc_u64s(vs@.take(i as int)),
                decreases vs@.len() - i,
            {
                push_u64(out, vs[i]);
                proof {
                    assert(vs@.take(i + 1) =~= vs@.take(i as int).push(vs@[i as int]));
                    lemma_enc_u64s_snoc(vs@.take(i as int), vs@[i as int]);
                }
                i = i + 1;
            }
            proof {
                assert(vs@.take(vs@.len() as int) =~= vs@);
                assert(out@ =~= old(out)@ + enc_v(pmtv(*p)));
            }
        },
        Pmt::Blob(bs) => {
            out.push(12u8);
            push_u64(out, bs.len() as u64);
            let ghost mid = out@;
            let mut i: usize = 0;
            proof {
                assert(mid + bs@.take(0) =~= mid);
            }
            while i < bs.len()
                invariant
                    0 <= i <= bs@.len(),
                    out@ =~= mid + bs@.take(i as int),
                decreases bs@.len() - i,
            {
                out.push(bs[i]);
                proof {
                    assert(bs@.take(i + 1) =~= bs@.take(i as int).push(bs@[i as int]));
                }
                i = i + 1;
            }
            proof {
                assert(bs@.take(bs@.len() as int) =~= bs@);
                assert(out@ =~= old(out)@ + enc_v(pmtv(*p)));
            }
        },
        Pmt::VecPmt(vs) => {
            out.push(13u8);
            push_u64(out, vs.len() as u64);
            let ghost mid = out@;
            let mut i: usize = 0;
            proof {
                crate::pmt::lemma_pmtv_list(vs@);
                assert(pmtv_list(vs@.take(0)) =~= Seq::<PmtV>::empty());
                assert(enc_vlist(pmtv_list(vs@.take(0))) =~= Seq::<u8>::empty());
                assert(mid + enc_vlist(pmtv_list(vs@.take(0))) =~= mid);
            }
            while i < vs.len()
                invariant
                    *p == Pmt::VecPmt(*vs),
                    0 <= i <= vs@.len(),
                    out@ =~= mid + enc_vlist(pmtv_list(vs@.take(i as int))),
                decreases vs@.len() - i,
            {
                proof {
                    assert(decreases_to!(*p => p->VecPmt_0));
                    assert(decreases_to!(*vs => vs@));
                    assert(decreases_to!(vs@ => vs@[i as int]));
                    assert(decreases_to!(*p => vs@[i as int]));
                }
                encode_pmt(&vs[i], out);
                proof {
                    crate::pmt::lemma_pmtv_list(vs@.take(i as int));
                    crate::pmt::lemma_pmtv_list(vs@.take(i + 1));
                    assert(vs@.take(i + 1) =~= vs@.take(i as int).push(vs@[i as int]));
                    assert forall|k: int| 0 <= k < i + 1 implies pmtv_list(vs@.take(i + 1))[k]
                        == pmtv_list(vs@.take(i as int)).push(pmtv(vs@[i as int]))[k] by {
                        assert(pmtv_list(vs@.take(i + 1))[k] == pmtv(vs@.take(i + 1)[k]));
                        if k < i {
                            assert(pmtv_list(vs@.take(i as int))[k] == pmtv(vs@.take(i as int)[k]));
                        }
                    }
                    assert(pmtv_list(vs@.take(i + 1)) =~= pmtv_list(vs@.take(i as int)).push(
                        pmtv(vs@[i as int]),
                    ));
                    lemma_enc_vlist_snoc(pmtv_list(vs@.take(i as int)), pmtv(vs@[i as int]));
                }
                i = i + 1;
            }
            proof {
                assert(vs@.take(vs@.len() as int) =~= vs@);
                assert(out@ =~= old(out)@ + enc_v(pmtv(*p)));
            }
        },
        Pmt::Finished => {
            out.push(14u8);
            proof {
                assert(out@ =~= old(out)@ + enc_v(pmtv(*p)));
            }
        },
        Pmt::MapStrPmt(es) => {
            out.push(15u8);
            push_u64(out, es.len() as u64);
            let ghost mid = out@;
            let mut i: usize = 0;
            proof {
                assert(pmtv_entries(es@.take(0)) =~= Seq::<(Seq<char>, PmtV)>::empty());
                assert(enc_vmap(pmtv_entries(es@.take(0))) =~= Seq::<u8>::empty());
                assert(mid + enc_vmap(pmtv_entries(es@.take(0))) =~= mid);
            }
            while i < es.len()
                invariant
                    *p == Pmt::MapStrPmt(*es),
                    0 <= i <= es@.len(),
                    out@ =~= mid + enc_vmap(pmtv_entries(es@.take(i as int))),
                decreases es@.len() - i,
            {
                proof {
                    assert(decreases_to!(*p => p->MapStrPmt_0));
                    assert(decreases_to!(*es => es@));
                    assert(decreases_to!(es@ => es@[i as int]));
                    assert(decreases_to!(es@[i as int] => es@[i as int].1));
                    assert(decreases_to!(*p => es@[i as int].1));
                }
                let ghost pre = out@;
                let key = &es[i].0;
                let klen: u64 = key.as_str().unicode_len() as u64;
                push_u64(out, klen);
                let ghost s1 = out@;
                push_chars(out, key.as_str());
                let ghost s2 = out@;
                encode_pmt(&es[i].1, out);
                proof {
                    assert(s1 =~= pre + u64_le(klen));
                    assert(s2 =~= s1 + enc_chars(es@[i as int].0@));
                    assert(out@ =~= s2 + enc_v(pmtv(es@[i as int].1)));
                    assert(klen == es@[i as int].0@.len() as u64);
                    crate::pmt::lemma_pmtv_entries(es@.take(i as int));
                    crate::pmt::lemma_pmtv_entries(es@.take(i + 1));
                    assert(es@.take(i + 1) =~= es@.take(i as int).push(es@[i as int]));
                    let entry = (es@[i as int].0@, pmtv(es@[i as int].1));
                    assert forall|k: int| 0 <= k < i + 1 implies pmtv_entries(es@.take(i + 1))[k]
                        == pmtv_entries(es@.take(i as int)).push(entry)[k] by {
                        assert(pmtv_entries(es@.take(i + 1))[k] == ((es@.take(i + 1)[k]).0@, pmtv(
                            es@.take(i + 1)[k].1,
                        )));
                        if k < i {
                            assert(pmtv_entries(es@.take(i as int))[k] == ((es@.take(
                                i as int,
                            )[k]).0@, pmtv(es@.take(i as int)[k].1)));
                        }
                    }
                    assert(pmtv_entries(es@.take(i + 1)) =~= pmtv_entries(es@.take(
                        i as int,
                    )).push(entry));
                    lemma_enc_vmap_snoc(pmtv_entries(es@.take(i as int)), entry);
                    assert(out@ =~= pre + (u64_le(entry.0.len() as u64) + enc_chars(entry.0)
                        + enc_v(entry.1)));
                }
                i = i + 1;
            }
            proof {
                assert(es@.take(es@.len() as int) =~= es@);
                crate::pmt::lemma_pmtv_entries(es@);
                assert(out@ =~= old(out)@ + enc_v(pmtv(*p)));
            }
        },
    }
}

/// Relies on char::from_u32: `Some` exactly on Unicode scalar values,
/// and the returned character casts back to the code point.
#[verifier::external_body]
fn char_from_u32(v: u32) -> (r: Option<char>)
    ensures
        r is Some <==> is_scalar(v),
        r matches Some(c) ==> c as u32 == v,
{
    char::from_u32(v)
}

/// Relies on String::push: appends one character.
#[verifier::external_body]
fn push_char(s: &mut String, c: char)
    ensures
        final(s)@ == old(s)@.push(c),
{
    s.push(c);
}

/// Reads a 64-bit little-endian integer at `pos`.
fn take_u64(bytes: &Vec<u8>, pos: usize) -> (r: Option<(u64, usize)>)
    requires
        pos <= bytes@.len(),
    ensures
        match r {
            Some(p) => bytes@.len() - pos >= 8 && p.0 == read_u64(bytes@.skip(pos as int))
                && p.1 == pos + 8,
            None => bytes@.len() - pos < 8,
        },
{
    if bytes.len() - pos < 8 {
        return None;
    }
    let b0 = bytes[pos];
    let b1 = bytes[pos + 1];
    let b2 = bytes[pos + 2];
    let b3 = bytes[pos + 3];
    let b4 = bytes[pos + 4];
    let b5 = bytes[pos + 5];
    let b6 = bytes[pos + 6];
    let b7 = bytes[pos + 7];
    let v = (b0 as u64) | ((b1 as u64) << 8) | ((b2 as u64) << 16) | ((b3 as u64) << 24)
        | ((b4 as u64) << 32) | ((b5 as u64) << 40) | ((b6 as u64) << 48) | ((b7 as u64) << 56);
    proof {
        assert(bytes@.skip(pos as int)[0] == bytes@[pos as int]);
        assert(bytes@.skip(pos as int)[1] == bytes@[pos as int + 1]);
        assert(bytes@.skip(pos as int)[2] == bytes@[pos as int + 2]);
        assert(bytes@.skip(pos as int)[3] == bytes@[pos as int + 3]);
        assert(bytes@.skip(pos as int)[4] == bytes@[pos as int + 4]);
        assert(bytes@.skip(pos as int)[5] == bytes@[pos as int + 5]);
        assert(bytes@.skip(pos as int)[6] == bytes@[pos as int + 6]);
        assert(bytes@.skip(pos as int)[7] == bytes@[pos as int + 7]);
    }
    Some((v, pos + 8))
}

/// Reads a 32-bit little-endian integer at `pos`.
fn take_u32(bytes: &Vec<u8>, pos: usize) -> (r: Option<(u32, usize)>)
    requires
        pos <= bytes@.len(),
    ensures
        match r {
            Some(p) => bytes@.len() - pos >= 4 && p.0 == read_u32(bytes@.skip(pos as int))
                && p.1 == pos + 4,
            None => bytes@.len() - pos < 4,
        },
{
    if bytes.len() - pos < 4 {
        return None;
    }
    let b0 = bytes[pos];
    let b1 = bytes[pos + 1];
    let b2 = bytes[pos + 2];
    let b3 = bytes[pos + 3];
    let v = (b0 as u32) | ((b1 as u32) << 8) | ((b2 as u32) << 16) | ((b3 as u32) << 24);
    proof {
        assert(bytes@.skip(pos as int)[0] == bytes@[pos as int]);
        assert(bytes@.skip(pos as int)[1] == bytes@[pos as int + 1]);
        assert(bytes@.skip(pos as int)[2] == bytes@[pos as int + 2]);
        assert(bytes@.skip(pos as int)[3] == bytes@[pos as int + 3]);
    }
    Some((v, pos + 4))
}

/// `r` with `acc` prepended to its characters.
pub open spec fn prepend_chars(acc: Seq<char>, r: Option<(Seq<char>, Seq<u8>)>) -> Option<
    (Seq<char>, Seq<u8>),
> {
    match r {
        Some(p) => Some((acc + p.0, p.1)),
        None => None,
    }
}

/// `r` with `acc` prepended to its integers.
pub open spec fn prepend_u32s(acc: Seq<u32>, r: Option<(Seq<u32>, Seq<u8>)>) -> Option<
    (Seq<u32>, Seq<u8>),
> {
    match r {
        Some(p) => Some((acc + p.0, p.1)),
        None => None,
    }
}

/// `r` with `acc` prepended to its integers.
pub open spec fn prepend_u64s(acc: Seq<u64>, r: Option<(Seq<u64>, Seq<u8>)>) -> Option<
    (Seq<u64>, Seq<u8>),
> {
    match r {
        Some(p) => Some((acc + p.0, p.1)),
        None => None,
    }
}

/// Decodes `n` characters at `pos` into a string.
fn decode_chars(bytes: &Vec<u8>, pos: usize, n: u64) -> (r: Option<(String, usize)>)
    requires
        pos <= bytes@.len(),
    ensures
        match r {
            Some(p) => pos <= p.1 <= bytes@.len() && dec_chars(n as nat, bytes@.skip(pos as int))
                == Some((p.0@, bytes@.skip(p.1 as int))),
            None => dec_chars(n as nat, bytes@.skip(pos as int)) is None,
        },
{
    let mut acc = String::new();
    let mut cur: usize = pos;
    let mut k: u64 = 0;
    proof {
        if dec_chars(n as nat, bytes@.skip(pos as int)) is Some {
            assert(acc@ + dec_chars(n as nat, bytes@.skip(pos as int))->Some_0.0 =~= dec_chars(
                n as nat,
                bytes@.skip(pos as int),
            )->Some_0.0);
        }
    }
    while k < n
        invariant
            pos <= cur <= bytes@.len(),
            0 <= k <= n,
            prepend_chars(acc@, dec_chars((n - k) as nat, bytes@.skip(cur as int))) == dec_chars(
                n as nat,
                bytes@.skip(pos as int),
            ),
        decreases n - k,
    {
        let taken = take_u32(bytes, cur);
        match taken {
            Some((v, p2)) => {
                proof {
                    assert(bytes@.skip(cur as int).skip(4) =~= bytes@.skip(cur as int + 4));
                }
                match char_from_u32(v) {
                    Some(c) => {
                        proof {
                            vstd::utf8::char_u32_cast(c, v);
                        }
                        let ghost acc_old = acc@;
                        push_char(&mut acc, c);
                        proof {
                            let inner = dec_chars((n - k - 1) as nat, bytes@.skip(p2 as int));
                            if inner is Some {
                                assert(acc_old + (seq![v as char] + inner->Some_0.0)
                                    =~= acc_old.push(c) + inner->Some_0.0);
                            }
                        }
                        cur = p2;
                    },
                    None => {
                        return None;
                    },
                }
            },
            None => {
                return None;
            },
        }
        k = k + 1;
    }
    proof {
        assert(acc@ + Seq::<char>::empty() =~= acc@);
    }
    Some((acc, cur))
}

/// Decodes `n` 32-bit integers at `pos`.
fn decode_u32s(bytes: &Vec<u8>, pos: usize, n: u64) -> (r: Option<(Vec<u32>, usize)>)
    requires
        pos <= bytes@.len(),
    ensures
        match r {
            Some(p) => pos <= p.1 <= bytes@.len() && dec_u32s(n as nat, bytes@.skip(pos as int))
                == Some((p.0@, bytes@.skip(p.1 as int))),
            None => dec_u32s(n as nat, bytes@.skip(pos as int)) is None,
        },
{
    let mut acc: Vec<u32> = Vec::new();
    let mut cur: usize = pos;
    let mut k: u64 = 0;
    proof {
        if dec_u32s(n as nat, bytes@.skip(pos as int)) is Some {
            assert(acc@ + dec_u32s(n as nat, bytes@.skip(pos as int))->Some_0.0 =~= dec_u32s(
                n as nat,
                bytes@.skip(pos as int),
            )->Some_0.0);
        }
    }
    while k < n
        invariant
            pos <= cur <= bytes@.len(),
            0 <= k <= n,
            prepend_u32s(acc@, dec_u32s((n - k) as nat, bytes@.skip(cur as int))) == dec_u32s(
                n as nat,
                bytes@.skip(pos as int),
            ),
        decreases n - k,
    {
        let taken = take_u32(bytes, cur);
        match taken {
            Some((v, p2)) => {
                proof {
                    assert(bytes@.skip(cur as int).skip(4) =~= bytes@.skip(cur as int + 4));
                }
                let ghost acc_old = acc@;
                acc.push(v);
                proof {
                    let inner = dec_u32s((n - k - 1) as nat, bytes@.skip(p2 as int));
                    if inner is Some {
                        assert(acc_old + (seq![v] + inner->Some_0.0) =~= acc_old.push(v)
                            + inner->Some_0.0);
                    }
                }
                cur = p2;
            },
            None => {
                return None;
            },
        }
        k = k + 1;
    }
    proof {
        assert(acc@ + Seq::<u32>::empty() =~= acc@);
    }
    Some((acc, cur))
}

/// Decodes `n` 64-bit integers at `pos`.
fn decode_u64s(bytes: &Vec<u8>, pos: usize, n: u64) -> (r: Option<(Vec<u64>, usize)>)
    requires
        pos <= bytes@.len(),
    ensures
        match r {
            Some(p) => pos <= p.1 <= bytes@.len() && dec_u64s(n as nat, bytes@.skip(pos as int))
                == Some((p.0@, bytes@.skip(p.1 as int))),
            None => dec_u64s(n as nat, bytes@.skip(pos as int)) is None,
        },
{
    let mut acc: Vec<u64> = Vec::new();
    let mut cur: usize = pos;
    let mut k: u64 = 0;
    proof {
        if dec_u64s(n as nat, bytes@.skip(pos as int)) is Some {
            assert(acc@ + dec_u64s(n as nat, bytes@.skip(pos as int))->Some_0.0 =~= dec_u64s(
                n as nat,
                bytes@.skip(pos as int),
            )->Some_0.0);
        }
    }
    while k < n
        invariant
            pos <= cur <= bytes@.len(),
            0 <= k <= n,
            prepend_u64s(acc@, dec_u64s((n - k) as nat, bytes@.skip(cur as int))) == dec_u64s(
                n as nat,
                bytes@.skip(pos as int),
            ),
        decreases n - k,
    {
        let taken = take_u64(bytes, cur);
        match taken {
            Some((v, p2)) => {
                proof {
                    assert(bytes@.skip(cur as int).skip(8) =~= bytes@.skip(cur as int + 8));
                }
                let ghost acc_old = acc@;
                acc.push(v);
                proof {
                    let inner = dec_u64s((n - k - 1) as nat, bytes@.skip(p2 as int));
                    if inner is Some {
                        assert(acc_old + (seq![v] + inner->Some_0.0) =~= acc_old.push(v)
                            + inner->Some_0.0);
                    }
                }
                cur = p2;
            },
            None => {
                return None;
            },
        }
        k = k + 1;
    }
    proof {
        assert(acc@ + Seq::<u64>::empty() =~= acc@);
    }
    Some((acc, cur))
}

/// `r` with `acc` prepended to its values.
pub open spec fn prepend_pmts(acc: Seq<PmtV>, r: Option<(Seq<PmtV>, Seq<u8>)>) -> Option<
    (Seq<PmtV>, Seq<u8>),
> {
    match r {
        Some(p) => Some((acc + p.0, p.1)),
        None => None,
    }
}

/// `r` with `acc` prepended to its entries.
pub open spec fn prepend_entries(
    acc: Seq<(Seq<char>, PmtV)>,
    r: Option<(Seq<(Seq<char>, PmtV)>, Seq<u8>)>,
) -> Option<(Seq<(Seq<char>, PmtV)>, Seq<u8>)> {
    match r {
        Some(p) => Some((acc + p.0, p.1)),
        None => None,
    }
}

/// Decodes `n` raw bytes at `pos`.
fn decode_blob(bytes: &Vec<u8>, pos: usize, n: u64) -> (r: Option<(Vec<u8>, usize)>)
    requires
        pos <= bytes@.len(),
    ensures
        match r {
            Some(p) => {
                &&& pos <= p.1 <= bytes@.len()
                &&& bytes@.skip(pos as int).len() >= n as int
                &&& p.0@ == bytes@.skip(pos as int).take(n as int)
                &&& bytes@.skip(p.1 as int) == bytes@.skip(pos as int).skip(n as int)
            },
            None => bytes@.skip(pos as int).len() < n as int,
        },
{
    if n > (bytes.len() - pos) as u64 {
        return None;
    }
    let m = n as usize;
    let total = bytes.len();
    let mut out: Vec<u8> = Vec::new();
    let mut k: usize = 0;
    while k < m
        invariant
            total == bytes@.len(),
            pos + m <= total,
            0 <= k <= m,
            out@ =~= bytes@.subrange(pos as int, pos + k),
        decreases m - k,
    {
        out.push(bytes[pos + k]);
        proof {
            assert(bytes@.subrange(pos as int, pos + k + 1) =~= bytes@.subrange(
                pos as int,
                pos + k,
            ).push(bytes@[pos + k]));
        }
        k = k + 1;
    }
    proof {
        assert(out@ =~= bytes@.skip(pos as int).take(n as int));
        assert(bytes@.skip(pos as int + m) =~= bytes@.skip(pos as int).skip(n as int));
    }
    Some((out, pos + m))
}

/// Decodes one Pmt value at `pos`, returning it and the position just
/// past its encoding; agrees exactly with the model decoder.
#[verifier::rlimit(100)]
pub fn decode_pmt(bytes: &Vec<u8>, pos: usize) -> (r: Option<(Pmt, usize)>)
    requires
        pos <= bytes@.len(),
    ensures
        match r {
            Some(p) => pos < p.1 <= bytes@.len() && dec_v(bytes@.skip(pos as int)) == Some(
                (pmtv(p.0), bytes@.skip(p.1 as int)),
            ),
            None => dec_v(bytes@.skip(pos as int)) is None,
        },
    decreases bytes@.len() - pos, 0int,
{
    if pos >= bytes.len() {
        proof {
            assert(bytes@.skip(pos as int).len() == 0);
        }
        return None;
    }
    let t = bytes[pos];
    let p1 = pos + 1;
    proof {
        assert(bytes@.skip(pos as int)[0] == bytes@[pos as int]);
        assert(bytes@.skip(pos as int).drop_first() =~= bytes@.skip(p1 as int));
    }
    if t == 0 {
        Some((Pmt::Okay, p1))
    } else if t == 1 {
        Some((Pmt::InvalidValue, p1))
    } else if t == 2 {
        Some((Pmt::Null, p1))
    } else if t == 3 {
        match take_u64(bytes, p1) {
            Some((n, p2)) => {
                proof {
                    assert(bytes@.skip(p1 as int).skip(8) =~= bytes@.skip(p2 as int));
                }
                match decode_chars(bytes, p2, n) {
                    Some((sres, end)) => Some((Pmt::Str(sres), end)),
                    None => None,
                }
            },
            None => None,
        }
    } else if t == 4 {
        if p1 >= bytes.len() {
            return None;
        }
        let b = bytes[p1];
        proof {
            assert(bytes@.skip(p1 as int)[0] == bytes@[p1 as int]);
            assert(bytes@.skip(p1 as int).drop_first() =~= bytes@.skip(p1 as int + 1));
        }
        if b == 0 || b == 1 {
            Some((Pmt::Bool(b == 1), p1 + 1))
        } else {
            None
        }
    } else if t == 5 {
        match take_u64(bytes, p1) {
            Some((v, p2)) => {
                proof {
                    assert(bytes@.skip(p1 as int).skip(8) =~= bytes@.skip(p2 as int));
                }
                if v <= usize::MAX as u64 {
                    Some((Pmt::Usize(v as usize), p2))
                } else {
                    None
                }
            },
            None => None,
        }
    } else if t == 6 {
        match take_u32(bytes, p1) {
            Some((v, p2)) => {
                proof {
                    assert(bytes@.skip(p1 as int).skip(4) =~= bytes@.skip(p2 as int));
                }
                Some((Pmt::U32(v), p2))
            },
            None => None,
        }
    } else if t == 7 {
        match take_u64(bytes, p1) {
            Some((v, p2)) => {
                proof {
                    assert(bytes@.skip(p1 as int).skip(8) =~= bytes@.skip(p2 as int));
                }
                Some((Pmt::U64(v), p2))
            },
            None => None,
        }
    } else if t == 8 {
        match take_u32(bytes, p1) {
            Some((v, p2)) => {
                proof {
                    assert(bytes@.skip(p1 as int).skip(4) =~= bytes@.skip(p2 as int));
                }
                Some((Pmt::F32(v), p2))
            },
            None => None,
        }
    } else if t == 9 {
        match take_u64(bytes, p1) {
            Some((v, p2)) => {
                proof {
                    assert(bytes@.skip(p1 as int).skip(8) =~= bytes@.skip(p2 as int));
                }
                Some((Pmt::F64(v), p2))
            },
            None => None,
        }
    } else if t == 10 {
        match take_u64(bytes, p1) {
            Some((n, p2)) => {
                proof {
                    assert(bytes@.skip(p1 as int).skip(8) =~= bytes@.skip(p2 as int));
                }
                match decode_u32s(bytes, p2, n) {
                    Some((vs, end)) => Some((Pmt::VecF32(vs), end)),
                    None => None,
                }
            },
            None => None,
        }
    } else if t == 11 {
        match take_u64(bytes, p1) {
            Some((n, p2)) => {
                proof {
                    assert(bytes@.skip(p1 as int).skip(8) =~= bytes@.skip(p2 as int));
                }
                match decode_u64s(bytes, p2, n) {
                    Some((vs, end)) => Some((Pmt::VecU64(vs), end)),
                    None => None,
                }
            },
            None => None,
        }
    } else if t == 12 {
        match take_u64(bytes, p1) {
            Some((n, p2)) => {
                proof {
                    assert(bytes@.skip(p1 as int).skip(8) =~= bytes@.skip(p2 as int));
                }
                match decode_blob(bytes, p2, n) {
                    Some((vs, end)) => Some((Pmt::Blob(vs), end)),
                    None => None,
                }
            },
            None => None,
        }
    } else if t == 13 {
        match take_u64(bytes, p1) {
            Some((n, p2)) => {
                proof {
                    assert(bytes@.skip(p1 as int).skip(8) =~= bytes@.skip(p2 as int));
                }
                match decode_list(bytes, p2, n) {
                    Some((vs, end)) => Some((Pmt::VecPmt(vs), end)),
                    None => None,
                }
            },
            None => None,
        }
    } else if t == 14 {
        Some((Pmt::Finished, p1))
    } else if t == 15 {
        match take_u64(bytes, p1) {
            Some((n, p2)) => {
                proof {
                    assert(bytes@.skip(p1 as int).skip(8) =~= bytes@.skip(p2 as int));
                }
                match decode_map(bytes, p2, n) {
                    Some((es, end)) => Some((Pmt::MapStrPmt(es), end)),
                    None => None,
                }
            },
            None => None,
        }
    } else {
        None
    }
}

/// Decodes `n` Pmt values at `pos`.
fn decode_list(bytes: &Vec<u8>, pos: usize, n: u64) -> (r: Option<(Vec<Pmt>, usize)>)
    requires
        pos <= bytes@.len(),
    ensures
        match r {
            Some(p) => pos <= p.1 <= bytes@.len() && dec_vlist(n as nat, bytes@.skip(pos as int))
                == Some((pmtv_list(p.0@), bytes@.skip(p.1 as int))),
            None => dec_vlist(n as nat, bytes@.skip(pos as int)) is None,
        },
    decreases bytes@.len() - pos, 1int,
{
    let mut acc: Vec<Pmt> = Vec::new();
    let mut cur: usize = pos;
    let mut k: u64 = 0;
    proof {
        crate::pmt::lemma_pmtv_list(acc@);
        assert(pmtv_list(acc@) =~= Seq::<PmtV>::empty());
        if dec_vlist(n as nat, bytes@.skip(pos as int)) is Some {
            assert(pmtv_list(acc@) + dec_vlist(n as nat, bytes@.skip(pos as int))->Some_0.0
                =~= dec_vlist(n as nat, bytes@.skip(pos as int))->Some_0.0);
        }
    }
    while k < n
        invariant
            pos <= cur <= bytes@.len(),
            0 <= k <= n,
            prepend_pmts(pmtv_list(acc@), dec_vlist((n - k) as nat, bytes@.skip(cur as int)))
                == dec_vlist(n as nat, bytes@.skip(pos as int)),
        decreases bytes@.len() - cur, 2int, n - k,
    {
        let step = decode_pmt(bytes, cur);
        match step {
            Some((v, p2)) => {
                proof {
                    assert(bytes@.skip(p2 as int).len() < bytes@.skip(cur as int).len());
                }
                let ghost acc_old = acc@;
                acc.push(v);
                proof {
                    crate::pmt::lemma_pmtv_list(acc@);
                    crate::pmt::lemma_pmtv_list(acc_old);
                    assert(acc@ =~= acc_old.push(v));
                    assert forall|j: int| 0 <= j < acc@.len() implies pmtv_list(acc@)[j]
                        == pmtv_list(acc_old).push(pmtv(v))[j] by {
                        assert(pmtv_list(acc@)[j] == pmtv(acc@[j]));
                        if j < acc_old.len() {
                            assert(pmtv_list(acc_old)[j] == pmtv(acc_old[j]));
                        }
                    }
                    assert(pmtv_list(acc@) =~= pmtv_list(acc_old).push(pmtv(v)));
                    let inner = dec_vlist((n - k - 1) as nat, bytes@.skip(p2 as int));
                    if inner is Some {
                        assert(pmtv_list(acc_old) + (seq![pmtv(v)] + inner->Some_0.0)
                            =~= pmtv_list(acc_old).push(pmtv(v)) + inner->Some_0.0);
                    }
                }
                cur = p2;
            },
            None => {
                return None;
            },
        }
        k = k + 1;
    }
    proof {
        assert(pmtv_list(acc@) + Seq::<PmtV>::empty() =~= pmtv_list(acc@));
    }
    Some((acc, cur))
}

/// Decodes `n` map entries at `pos`.
fn decode_map(bytes: &Vec<u8>, pos: usize, n: u64) -> (r: Option<(Vec<(String, Pmt)>, usize)>)
    requires
        pos <= bytes@.len(),
    ensures
        match r {
            Some(p) => pos <= p.1 <= bytes@.len() && dec_vmap(n as nat, bytes@.skip(pos as int))
                == Some((pmtv_entries(p.0@), bytes@.skip(p.1 as int))),
            None => dec_vmap(n as nat, bytes@.skip(pos as int)) is None,
        },
    decreases bytes@.len() - pos, 1int,
{
    let mut acc: Vec<(String, Pmt)> = Vec::new();
    let mut cur: usize = pos;
    let mut k: u64 = 0;
    proof {
        crate::pmt::lemma_pmtv_entries(acc@);
        assert(pmtv_entries(acc@) =~= Seq::<(Seq<char>, PmtV)>::empty());
        if dec_vmap(n as nat, bytes@.skip(pos as int)) is Some {
            assert(pmtv_entries(acc@) + dec_vmap(n as nat, bytes@.skip(pos as int))->Some_0.0
                =~= dec_vmap(n as nat, bytes@.skip(pos as int))->Some_0.0);
        }
    }
    while k < n
        invariant
            pos <= cur <= bytes@.len(),
            0 <= k <= n,
            prepend_entries(
                pmtv_entries(acc@),
                dec_vmap((n - k) as nat, bytes@.skip(cur as int)),
            ) == dec_vmap(n as nat, bytes@.skip(pos as int)),
        decreases bytes@.len() - cur, 2int, n - k,
    {
        let counted = take_u64(bytes, cur);
        match counted {
            Some((klen, pk)) => {
                proof {
                    assert(bytes@.skip(cur as int).skip(8) =~= bytes@.skip(pk as int));
                }
                match decode_chars(bytes, pk, klen) {
                    Some((key, p2)) => {
                        proof {
                            assert(bytes@.skip(p2 as int).len() < bytes@.skip(cur as int).len());
                        }
                        let step = decode_pmt(bytes, p2);
                        match step {
                            Some((v, p3)) => {
                                proof {
                                    assert(bytes@.skip(p3 as int).len() < bytes@.skip(
                                        cur as int,
                                    ).len());
                                }
                                let ghost acc_old = acc@;
                                let ghost key_v = key@;
                                acc.push((key, v));
                                proof {
                                    crate::pmt::lemma_pmtv_entries(acc@);
                                    crate::pmt::lemma_pmtv_entries(acc_old);
                                    let entry = (key_v, pmtv(v));
                                    assert forall|j: int| 0 <= j < acc@.len() implies pmtv_entries(
                                        acc@,
                                    )[j] == pmtv_entries(acc_old).push(entry)[j] by {
                                        assert(pmtv_entries(acc@)[j] == ((acc@[j]).0@, pmtv(
                                            acc@[j].1,
                                        )));
                                        if j < acc_old.len() {
                                            assert(pmtv_entries(acc_old)[j] == ((acc_old[j]).0@,
                                            pmtv(acc_old[j].1)));
                                        }
                                    }
                                    assert(pmtv_entries(acc@) =~= pmtv_entries(acc_old).push(
                                        entry,
                                    ));
                                    let inner = dec_vmap(
                                        (n - k - 1) as nat,
                                        bytes@.skip(p3 as int),
                                    );
                                    if inner is Some {
                                        assert(pmtv_entries(acc_old) + (seq![entry]
                                            + inner->Some_0.0) =~= pmtv_entries(acc_old).push(
                                            entry,
                                        ) + inner->Some_0.0);
                                    }
                                }
                                cur = p3;
                            },
                            None => {
                                return None;
                            },
                        }
                    },
                    None => {
                        return None;
                    },
                }
            },
            None => {
                return None;
            },
        }
        k = k + 1;
    }
    proof {
        assert(pmtv_entries(acc@) + Seq::<(Seq<char>, PmtV)>::empty() =~= pmtv_entries(acc@));
    }
    Some((acc, cur))
}

} // verus!
