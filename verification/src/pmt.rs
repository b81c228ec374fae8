//! Polymorphic message type (Pmt): the tagged value union carried by
//! message ports and tag payloads.
//!
//! Floating-point payloads are held as their IEEE-754 bit patterns so
//! that the value model stays in plain integers; equivalence follows
//! IEEE-754 comparison rules (`NaN != NaN`, `+0 == -0`).

use vstd::prelude::*;

verus! {

/// Polymorphic message value.
///
/// Float variants hold the IEEE-754 bit pattern of the value; maps are
/// association lists in insertion order.
#[derive(Debug, PartialEq)]
pub enum Pmt {
    /// Successful operation without additional payload.
    Okay,
    /// Invalid value, e.g. a handler parameter outside the allowed range.
    InvalidValue,
    /// Absence of a value.
    Null,
    /// UTF-8 string.
    Str(String),
    /// Boolean.
    Bool(bool),
    /// Native-sized unsigned integer.
    Usize(usize),
    /// 32-bit unsigned integer.
    U32(u32),
    /// 64-bit unsigned integer.
    U64(u64),
    /// 32-bit float, as its IEEE-754 bit pattern.
    F32(u32),
    /// 64-bit float, as its IEEE-754 bit pattern.
    F64(u64),
    /// Vector of 32-bit floats, each as its bit pattern.
    VecF32(Vec<u32>),
    /// Vector of 64-bit unsigned integers.
    VecU64(Vec<u64>),
    /// Binary data blob.
    Blob(Vec<u8>),
    /// Vector of Pmt values.
    VecPmt(Vec<Pmt>),
    /// Signals that a connected block finished.
    Finished,
    /// Map from string keys to Pmt values, in insertion order.
    MapStrPmt(Vec<(String, Pmt)>),
}

/// Whether a 32-bit IEEE-754 bit pattern denotes a NaN.
pub open spec fn f32_bits_is_nan(b: u32) -> bool {
    (b & 0x7fff_ffff) > 0x7f80_0000
}

/// Whether a 64-bit IEEE-754 bit pattern denotes a NaN.
pub open spec fn f64_bits_is_nan(b: u64) -> bool {
    (b & 0x7fff_ffff_ffff_ffff) > 0x7ff0_0000_0000_0000
}

/// IEEE-754 equality on 32-bit patterns: NaN equals nothing, the two
/// zeros equal each other, every other value equals only its own pattern.
pub open spec fn f32_bits_eq(a: u32, b: u32) -> bool {
    &&& !f32_bits_is_nan(a)
    &&& !f32_bits_is_nan(b)
    &&& (a == b || ((a & 0x7fff_ffff) == 0 && (b & 0x7fff_ffff) == 0))
}

/// IEEE-754 equality on 64-bit patterns.
pub open spec fn f64_bits_eq(a: u64, b: u64) -> bool {
    &&& !f64_bits_is_nan(a)
    &&& !f64_bits_is_nan(b)
    &&& (a == b || ((a & 0x7fff_ffff_ffff_ffff) == 0 && (b & 0x7fff_ffff_ffff_ffff) == 0))
}

/// Structural equivalence of two Pmt values, with IEEE-754 rules on the
/// float variants.
pub open spec fn pmt_equiv(a: Pmt, b: Pmt) -> bool
    decreases a,
{
    match (a, b) {
        (Pmt::Okay, Pmt::Okay) => true,
        (Pmt::InvalidValue, Pmt::InvalidValue) => true,
        (Pmt::Null, Pmt::Null) => true,
        (Pmt::Str(x), Pmt::Str(y)) => x@ == y@,
        (Pmt::Bool(x), Pmt::Bool(y)) => x == y,
        (Pmt::Usize(x), Pmt::Usize(y)) => x == y,
        (Pmt::U32(x), Pmt::U32(y)) => x == y,
        (Pmt::U64(x), Pmt::U64(y)) => x == y,
        (Pmt::F32(x), Pmt::F32(y)) => f32_bits_eq(x, y),
        (Pmt::F64(x), Pmt::F64(y)) => f64_bits_eq(x, y),
        (Pmt::VecF32(x), Pmt::VecF32(y)) => {
            x@.len() == y@.len() && forall|i: int|
                0 <= i < x@.len() ==> f32_bits_eq(#[trigger] x@[i], y@[i])
        },
        (Pmt::VecU64(x), Pmt::VecU64(y)) => x@ == y@,
        (Pmt::Blob(x), Pmt::Blob(y)) => x@ == y@,
        (Pmt::VecPmt(x), Pmt::VecPmt(y)) => pmt_seq_equiv(x@, y@),
        (Pmt::Finished, Pmt::Finished) => true,
        (Pmt::MapStrPmt(x), Pmt::MapStrPmt(y)) => pmt_map_equiv(x@, y@),
        _ => false,
    }
}

/// Pointwise equivalence of two Pmt sequences.
pub open spec fn pmt_seq_equiv(a: Seq<Pmt>, b: Seq<Pmt>) -> bool
    decreases a,
{
    if a.len() != b.len() {
        false
    } else if a.len() == 0 {
        true
    } else {
        pmt_equiv(a[0], b[0]) && pmt_seq_equiv(a.drop_first(), b.drop_first())
    }
}

/// Pointwise equivalence of two map entry lists: same keys in the same
/// order, equivalent values.
pub open spec fn pmt_map_equiv(a: Seq<(String, Pmt)>, b: Seq<(String, Pmt)>) -> bool
    decreases a,
{
    if a.len() != b.len() {
        false
    } else if a.len() == 0 {
        true
    } else {
        a[0].0@ == b[0].0@ && pmt_equiv(a[0].1, b[0].1)
            && pmt_map_equiv(a.drop_first(), b.drop_first())
    }
}

/// The value bound to `key` in a map entry list: the first entry wins.
pub open spec fn map_lookup(entries: Seq<(String, Pmt)>, key: Seq<char>) -> Option<Pmt>
    decreases entries,
{
    if entries.len() == 0 {
        None
    } else if entries[0].0@ == key {
        Some(entries[0].1)
    } else {
        map_lookup(entries.drop_first(), key)
    }
}

/// Mathematical model of a Pmt value: strings and vectors as sequences.
pub enum PmtV {
    Okay,
    InvalidValue,
    Null,
    Str(Seq<char>),
    Bool(bool),
    Usize(usize),
    U32(u32),
    U64(u64),
    F32(u32),
    F64(u64),
    VecF32(Seq<u32>),
    VecU64(Seq<u64>),
    Blob(Seq<u8>),
    VecPmt(Seq<PmtV>),
    Finished,
    MapStrPmt(Seq<(Seq<char>, PmtV)>),
}

/// The model of an executable Pmt value.
pub open spec fn pmtv(p: Pmt) -> PmtV
    decreases p, 0int,
{
    match p {
        Pmt::Okay => PmtV::Okay,
        Pmt::InvalidValue => PmtV::InvalidValue,
        Pmt::Null => PmtV::Null,
        Pmt::Str(s) => PmtV::Str(s@),
        Pmt::Bool(b) => PmtV::Bool(b),
        Pmt::Usize(v) => PmtV::Usize(v),
        Pmt::U32(v) => PmtV::U32(v),
        Pmt::U64(v) => PmtV::U64(v),
        Pmt::F32(v) => PmtV::F32(v),
        Pmt::F64(v) => PmtV::F64(v),
        Pmt::VecF32(v) => PmtV::VecF32(v@),
        Pmt::VecU64(v) => PmtV::VecU64(v@),
        Pmt::Blob(v) => PmtV::Blob(v@),
        Pmt::VecPmt(v) => PmtV::VecPmt(pmtv_list(v@)),
        Pmt::Finished => PmtV::Finished,
        Pmt::MapStrPmt(es) => PmtV::MapStrPmt(pmtv_entries(es@)),
    }
}

/// Models of a sequence of Pmt values.
pub open spec fn pmtv_list(ps: Seq<Pmt>) -> Seq<PmtV>
    decreases ps, 1int,
{
    if ps.len() == 0 {
        Seq::empty()
    } else {
        seq![pmtv(ps[0])] + pmtv_list(ps.drop_first())
    }
}

/// Models of a sequence of map entries.
pub open spec fn pmtv_entries(es: Seq<(String, Pmt)>) -> Seq<(Seq<char>, PmtV)>
    decreases es, 1int,
{
    if es.len() == 0 {
        Seq::empty()
    } else {
        seq![(es[0].0@, pmtv(es[0].1))] + pmtv_entries(es.drop_first())
    }
}

/// Pointwise reading of the model of a Pmt sequence.
pub proof fn lemma_pmtv_list(ps: Seq<Pmt>)
    ensures
        pmtv_list(ps).len() == ps.len(),
        forall|i: int| 0 <= i < ps.len() ==> pmtv_list(ps)[i] == pmtv(#[trigger] ps[i]),
    decreases ps,
{
    if ps.len() > 0 {
        lemma_pmtv_list(ps.drop_first());
        assert forall|i: int| 0 <= i < ps.len() implies pmtv_list(ps)[i] == pmtv(#[trigger] ps[i]) by {
            if i > 0 {
                assert(ps.drop_first()[i - 1] == ps[i]);
            }
        }
    }
}

/// Pointwise reading of the model of a map entry sequence.
pub proof fn lemma_pmtv_entries(es: Seq<(String, Pmt)>)
    ensures
        pmtv_entries(es).len() == es.len(),
        forall|i: int|
            0 <= i < es.len() ==> pmtv_entries(es)[i] == ((#[trigger] es[i]).0@, pmtv(es[i].1)),
    decreases es,
{
    if es.len() > 0 {
        lemma_pmtv_entries(es.drop_first());
        assert forall|i: int|
            0 <= i < es.len() implies pmtv_entries(es)[i] == ((#[trigger] es[i]).0@, pmtv(es[i].1)) by {
            if i > 0 {
                assert(es.drop_first()[i - 1] == es[i]);
            }
        }
    }
}

/// Whether every count in the model fits a 64-bit length field.
pub open spec fn bounded_v(m: PmtV) -> bool
    decreases m,
{
    match m {
        PmtV::Str(cs) => cs.len() <= u64::MAX,
        PmtV::VecF32(vs) => vs.len() <= u64::MAX,
        PmtV::VecU64(vs) => vs.len() <= u64::MAX,
        PmtV::Blob(bs) => bs.len() <= u64::MAX,
        PmtV::VecPmt(ms) => ms.len() <= u64::MAX && forall|i: int|
            0 <= i < ms.len() ==> bounded_v(#[trigger] ms[i]),
        PmtV::MapStrPmt(es) => es.len() <= u64::MAX && forall|i: int|
            0 <= i < es.len() ==> (#[trigger] es[i]).0.len() <= u64::MAX && bounded_v(es[i].1),
        _ => true,
    }
}

impl Pmt {
    /// Looks up `key` in a `MapStrPmt`; `None` on any other variant or a
    /// missing key.
    pub fn map_get(&self, key: &str) -> (r: Option<&Pmt>)
        ensures
            match *self {
                Pmt::MapStrPmt(entries) => {
                    match r {
                        Some(v) => map_lookup(entries@, key@) == Some(*v),
                        None => map_lookup(entries@, key@) is None,
                    }
                },
                _ => r is None,
            },
    {
        match self {
            Pmt::MapStrPmt(entries) => {
                let n = entries.len();
                let mut i: usize = 0;
                proof {
                    assert(entries@.skip(0) =~= entries@);
                }
                while i < n
                    invariant
                        *self == Pmt::MapStrPmt(*entries),
                        n == entries@.len(),
                        0 <= i <= n,
                        map_lookup(entries@, key@) == map_lookup(entries@.skip(i as int), key@),
                    decreases n - i,
                {
                    proof {
                        assert(entries@.skip(i as int).drop_first() =~= entries@.skip(i + 1));
                    }
                    if str_eq(entries[i].0.as_str(), key) {
                        assert(entries@.skip(i as int)[0] == entries@[i as int]);
                        assert(map_lookup(entries@.skip(i as int), key@)
                            == Some(entries@[i as int].1));
                        return Some(&entries[i].1);
                    }
                    i = i + 1;
                }
                assert(entries@.skip(n as int) =~= Seq::<(String, Pmt)>::empty());
                None
            },
            _ => None,
        }
    }

    /// Structural equivalence test with IEEE-754 float rules.
    pub fn equivalent(&self, other: &Pmt) -> (r: bool)
        ensures
            r == pmt_equiv(*self, *other),
        decreases *self,
    {
        match (self, other) {
            (Pmt::Okay, Pmt::Okay) => true,
            (Pmt::InvalidValue, Pmt::InvalidValue) => true,
            (Pmt::Null, Pmt::Null) => true,
            (Pmt::Str(x), Pmt::Str(y)) => x.eq(y),
            (Pmt::Bool(x), Pmt::Bool(y)) => x == y,
            (Pmt::Usize(x), Pmt::Usize(y)) => x == y,
            (Pmt::U32(x), Pmt::U32(y)) => x == y,
            (Pmt::U64(x), Pmt::U64(y)) => x == y,
            (Pmt::F32(x), Pmt::F32(y)) => f32_eq_exec(*x, *y),
            (Pmt::F64(x), Pmt::F64(y)) => f64_eq_exec(*x, *y),
            (Pmt::VecF32(x), Pmt::VecF32(y)) => {
                if x.len() != y.len() {
                    return false;
                }
                let mut i: usize = 0;
                while i < x.len()
                    invariant
                        *self == Pmt::VecF32(*x),
                        *other == Pmt::VecF32(*y),
                        0 <= i <= x@.len(),
                        x@.len() == y@.len(),
                        forall|j: int| 0 <= j < i ==> f32_bits_eq(#[trigger] x@[j], y@[j]),
                    decreases x@.len() - i,
                {
                    if !f32_eq_exec(x[i], y[i]) {
                        assert(!f32_bits_eq(x@[i as int], y@[i as int]));
                        return false;
                    }
                    i = i + 1;
                }
                true
            },
            (Pmt::VecU64(x), Pmt::VecU64(y)) => vec_u64_eq(x, y),
            (Pmt::Blob(x), Pmt::Blob(y)) => vec_u8_eq(x, y),
            (Pmt::VecPmt(x), Pmt::VecPmt(y)) => {
                if x.len() != y.len() {
                    proof {
                        reveal_with_fuel(pmt_seq_equiv, 1);
                    }
                    return false;
                }
                let mut i: usize = 0;
                proof {
                    assert(x@.skip(0) =~= x@);
                    assert(y@.skip(0) =~= y@);
                }
                while i < x.len()
                    invariant
                        0 <= i <= x@.len(),
                        x@.len() == y@.len(),
                        *self == Pmt::VecPmt(*x),
                        *other == Pmt::VecPmt(*y),
                        pmt_seq_equiv(x@, y@) == pmt_seq_equiv(x@.skip(i as int), y@.skip(i as int)),
                    decreases x@.len() - i,
                {
                    proof {
                        assert(x@.skip(i as int).drop_first() =~= x@.skip(i + 1));
                        assert(y@.skip(i as int).drop_first() =~= y@.skip(i + 1));
                        assert(x@.skip(i as int)[0] == x@[i as int]);
                        assert(y@.skip(i as int)[0] == y@[i as int]);
                        assert(decreases_to!(*self => self->VecPmt_0));
                        assert(decreases_to!(*x => x@));
                        assert(decreases_to!(x@ => x@[i as int]));
                        assert(decreases_to!(*self => x@[i as int]));
                    }
                    if !x[i].equivalent(&y[i]) {
                        return false;
                    }
                    i = i + 1;
                }
                proof {
                    assert(x@.skip(x@.len() as int) =~= Seq::<Pmt>::empty());
                    assert(y@.skip(y@.len() as int) =~= Seq::<Pmt>::empty());
                }
                true
            },
            (Pmt::Finished, Pmt::Finished) => true,
            (Pmt::MapStrPmt(x), Pmt::MapStrPmt(y)) => {
                if x.len() != y.len() {
                    proof {
                        reveal_with_fuel(pmt_map_equiv, 1);
                    }
                    return false;
                }
                let mut i: usize = 0;
                proof {
                    assert(x@.skip(0) =~= x@);
                    assert(y@.skip(0) =~= y@);
                }
                while i < x.len()
                    invariant
                        0 <= i <= x@.len(),
                        x@.len() == y@.len(),
                        *self == Pmt::MapStrPmt(*x),
                        *other == Pmt::MapStrPmt(*y),
                        pmt_map_equiv(x@, y@) == pmt_map_equiv(x@.skip(i as int), y@.skip(i as int)),
                    decreases x@.len() - i,
                {
                    proof {
                        assert(x@.skip(i as int).drop_first() =~= x@.skip(i + 1));
                        assert(y@.skip(i as int).drop_first() =~= y@.skip(i + 1));
                        assert(x@.skip(i as int)[0] == x@[i as int]);
                        assert(y@.skip(i as int)[0] == y@[i as int]);
                        assert(decreases_to!(*self => self->MapStrPmt_0));
                        assert(decreases_to!(*x => x@));
                        assert(decreases_to!(x@ => x@[i as int]));
                        assert(decreases_to!(x@[i as int] => x@[i as int].1));
                        assert(decreases_to!(*self => x@[i as int].1));
                    }
                    if !x[i].0.eq(&y[i].0) {
                        return false;
                    }
                    if !x[i].1.equivalent(&y[i].1) {
                        return false;
                    }
                    i = i + 1;
                }
                proof {
                    assert(x@.skip(x@.len() as int) =~= Seq::<(String, Pmt)>::empty());
                    assert(y@.skip(y@.len() as int) =~= Seq::<(String, Pmt)>::empty());
                }
                true
            },
            _ => false,
        }
    }
}

/// Character-wise equality of two string slices.
pub fn str_eq(a: &str, b: &str) -> (r: bool)
    ensures
        r == (a@ == b@),
{
    let n = a.unicode_len();
    if n != b.unicode_len() {
        assert(a@ != b@);
        return false;
    }
    let mut i: usize = 0;
    while i < n
        invariant
            0 <= i <= n,
            n == a@.len(),
            n == b@.len(),
            forall|j: int| 0 <= j < i ==> a@[j] == b@[j],
        decreases n - i,
    {
        if a.get_char(i) != b.get_char(i) {
            return false;
        }
        i = i + 1;
    }
    proof {
        assert(a@ =~= b@);
    }
    true
}

/// IEEE-754 equality on 32-bit patterns, executable form.
pub fn f32_eq_exec(a: u32, b: u32) -> (r: bool)
    ensures
        r == f32_bits_eq(a, b),
{
    let a_mag: u32 = a & 0x7fff_ffff;
    let b_mag: u32 = b & 0x7fff_ffff;
    if a_mag > 0x7f80_0000 || b_mag > 0x7f80_0000 {
        false
    } else {
        a == b || (a_mag == 0 && b_mag == 0)
    }
}

/// IEEE-754 equality on 64-bit patterns, executable form.
pub fn f64_eq_exec(a: u64, b: u64) -> (r: bool)
    ensures
        r == f64_bits_eq(a, b),
{
    let a_mag: u64 = a & 0x7fff_ffff_ffff_ffff;
    let b_mag: u64 = b & 0x7fff_ffff_ffff_ffff;
    if a_mag > 0x7ff0_0000_0000_0000 || b_mag > 0x7ff0_0000_0000_0000 {
        false
    } else {
        a == b || (a_mag == 0 && b_mag == 0)
    }
}

/// Element-wise equality of two u64 vectors.
pub fn vec_u64_eq(x: &Vec<u64>, y: &Vec<u64>) -> (r: bool)
    ensures
        r == (x@ == y@),
{
    if x.len() != y.len() {
        assert(x@ != y@);
        return false;
    }
    let mut i: usize = 0;
    while i < x.len()
        invariant
            0 <= i <= x@.len(),
            x@.len() == y@.len(),
            forall|j: int| 0 <= j < i ==> x@[j] == y@[j],
        decreases x@.len() - i,
    {
        if x[i] != y[i] {
            return false;
        }
        i = i + 1;
    }
    proof {
        assert(x@ =~= y@);
    }
    true
}

/// Element-wise equality of two byte vectors.
pub fn vec_u8_eq(x: &Vec<u8>, y: &Vec<u8>) -> (r: bool)
    ensures
        r == (x@ == y@),
{
    if x.len() != y.len() {
        assert(x@ != y@);
        return false;
    }
    let mut i: usize = 0;
    while i < x.len()
        invariant
            0 <= i <= x@.len(),
            x@.len() == y@.len(),
            forall|j: int| 0 <= j < i ==> x@[j] == y@[j],
        decreases x@.len() - i,
    {
        if x[i] != y[i] {
            return false;
        }
        i = i + 1;
    }
    proof {
        assert(x@ =~= y@);
    }
    true
}

} // verus!
