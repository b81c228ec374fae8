//! Reported capabilities of an SDR device, and their Pmt form.
//!
//! The device queries themselves are I/O and live outside the library;
//! this module holds the record, its assembly from query results, and
//! the exact conversion to and from the Pmt map shape.

use vstd::prelude::*;
use crate::Error;
use crate::pmt::Pmt;
use crate::pmt::PmtV;
use crate::pmt::pmtv;
use crate::pmt::pmtv_entries;
use crate::pmt::pmtv_list;
use crate::pmt::map_lookup;
use crate::tag::clone_string;

verus! {

/// One element of a tunable range; floats as IEEE-754 bit patterns.
#[derive(Clone, Copy, Debug, PartialEq, Eq, Structural)]
pub enum RangeItem {
    /// A single supported value.
    Value(u64),
    /// A closed interval.
    Interval(u64, u64),
    /// A closed interval walked in steps.
    Step(u64, u64, u64),
}

/// A supported range: a list of range elements.
#[derive(Debug, PartialEq)]
pub struct Range {
    /// The elements.
    pub items: Vec<RangeItem>,
}

/// Reported capabilities of a device channel.
#[derive(Debug, PartialEq)]
pub struct Capabilities {
    /// Frequency range supported by the device.
    pub frequency_range: Option<Range>,
    /// Sample rate range supported by the device.
    pub sample_rate_range: Option<Range>,
    /// Bandwidth range supported by the device.
    pub bandwidth_range: Option<Range>,
    /// Antennas identified by the device.
    pub antennas: Option<Vec<String>>,
    /// General gain ranges supported by the device.
    pub gain_range: Option<Range>,
    /// Whether the device supports automatic gain control.
    pub supports_agc: Option<bool>,
}

impl Capabilities {
    /// Assembles the record from the six query results, exactly as
    /// they came back; a failed query stays `None`.
    pub fn from_queries(
        frequency_range: Option<Range>,
        sample_rate_range: Option<Range>,
        bandwidth_range: Option<Range>,
        antennas: Option<Vec<String>>,
        gain_range: Option<Range>,
        supports_agc: Option<bool>,
    ) -> (r: Capabilities)
        ensures
            r == (Capabilities {
                frequency_range,
                sample_rate_range,
                bandwidth_range,
                antennas,
                gain_range,
                supports_agc,
            }),
    {
        Capabilities {
            frequency_range,
            sample_rate_range,
            bandwidth_range,
            antennas,
            gain_range,
            supports_agc,
        }
    }
}

/// The Pmt model of one range element.
pub open spec fn item_v(it: RangeItem) -> PmtV {
    match it {
        RangeItem::Value(v) => PmtV::F64(v),
        RangeItem::Interval(a, b) => PmtV::MapStrPmt(
            seq![("min"@, PmtV::F64(a)), ("max"@, PmtV::F64(b))],
        ),
        RangeItem::Step(a, b, c) => PmtV::MapStrPmt(
            seq![("min"@, PmtV::F64(a)), ("max"@, PmtV::F64(b)), ("step"@, PmtV::F64(c))],
        ),
    }
}

/// The Pmt model of a range: one entry per element.
pub open spec fn range_v(items: Seq<RangeItem>) -> Seq<PmtV> {
    Seq::new(items.len(), |i: int| item_v(items[i]))
}

/// The Pmt model of an antenna list.
pub open spec fn antennas_v(names: Seq<String>) -> Seq<PmtV> {
    Seq::new(names.len(), |i: int| PmtV::Str(names[i]@))
}

/// The map entries of the Pmt form of a capabilities record: one entry
/// per present field, in declaration order.
pub open spec fn caps_entries(c: Capabilities) -> Seq<(Seq<char>, PmtV)> {
    (match c.frequency_range {
        Some(r) => seq![("frequency_range"@, PmtV::VecPmt(range_v(r.items@)))],
        None => Seq::empty(),
    }) + (match c.sample_rate_range {
        Some(r) => seq![("sample_rate_range"@, PmtV::VecPmt(range_v(r.items@)))],
        None => Seq::empty(),
    }) + (match c.bandwidth_range {
        Some(r) => seq![("bandwidth_range"@, PmtV::VecPmt(range_v(r.items@)))],
        None => Seq::empty(),
    }) + (match c.antennas {
        Some(names) => seq![("antennas"@, PmtV::VecPmt(antennas_v(names@)))],
        None => Seq::empty(),
    }) + (match c.gain_range {
        Some(r) => seq![("gain_range"@, PmtV::VecPmt(range_v(r.items@)))],
        None => Seq::empty(),
    }) + (match c.supports_agc {
        Some(b) => seq![("supports_agc"@, PmtV::Bool(b))],
        None => Seq::empty(),
    })
}

/// Converts one range element to its Pmt.
fn item_to_pmt(it: &RangeItem) -> (r: Pmt)
    ensures
        pmtv(r) == item_v(*it),
{
    match it {
        RangeItem::Value(v) => Pmt::F64(*v),
        RangeItem::Interval(a, b) => {
            let mut es: Vec<(String, Pmt)> = Vec::new();
            es.push((String::from_str("min"), Pmt::F64(*a)));
            es.push((String::from_str("max"), Pmt::F64(*b)));
            let r = Pmt::MapStrPmt(es);
            proof {
                crate::pmt::lemma_pmtv_entries(es@);
                assert forall|k: int| 0 <= k < es@.len() implies pmtv_entries(es@)[k] == (seq![
                    ("min"@, PmtV::F64(*a)),
                    ("max"@, PmtV::F64(*b)),
                ])[k] by {
                    assert(pmtv_entries(es@)[k] == ((#[trigger] es@[k]).0@, pmtv(es@[k].1)));
                }
                assert(pmtv_entries(es@) =~= seq![("min"@, PmtV::F64(*a)), ("max"@, PmtV::F64(*b))]);
            }
            r
        },
        RangeItem::Step(a, b, c) => {
            let mut es: Vec<(String, Pmt)> = Vec::new();
            es.push((String::from_str("min"), Pmt::F64(*a)));
            es.push((String::from_str("max"), Pmt::F64(*b)));
            es.push((String::from_str("step"), Pmt::F64(*c)));
            let r = Pmt::MapStrPmt(es);
            proof {
                crate::pmt::lemma_pmtv_entries(es@);
                assert forall|k: int| 0 <= k < es@.len() implies pmtv_entries(es@)[k] == (seq![
                    ("min"@, PmtV::F64(*a)),
                    ("max"@, PmtV::F64(*b)),
                    ("step"@, PmtV::F64(*c)),
                ])[k] by {
                    assert(pmtv_entries(es@)[k] == ((#[trigger] es@[k]).0@, pmtv(es@[k].1)));
                }
                assert(pmtv_entries(es@) =~= seq![
                    ("min"@, PmtV::F64(*a)),
                    ("max"@, PmtV::F64(*b)),
                    ("step"@, PmtV::F64(*c)),
                ]);
            }
            r
        },
    }
}

/// Converts a range to its Pmt: a vector with one entry per element.
pub fn range_to_pmt(r: &Range) -> (p: Pmt)
    ensures
        pmtv(p) == PmtV::VecPmt(range_v(r.items@)),
{
    let mut out: Vec<Pmt> = Vec::new();
    let mut i: usize = 0;
    while i < r.items.len()
        invariant
            0 <= i <= r.items@.len(),
            out@.len() == i,
            forall|k: int| 0 <= k < i ==> pmtv(#[trigger] out@[k]) == item_v(r.items@[k]),
        decreases r.items@.len() - i,
    {
        out.push(item_to_pmt(&r.items[i]));
        i = i + 1;
    }
    proof {
        crate::pmt::lemma_pmtv_list(out@);
        assert forall|k: int| 0 <= k < out@.len() implies pmtv_list(out@)[k] == range_v(
            r.items@,
        )[k] by {
            assert(pmtv(out@[k]) == item_v(r.items@[k]));
        }
        assert(pmtv_list(out@) =~= range_v(r.items@));
    }
    Pmt::VecPmt(out)
}

/// The Pmt form of a capabilities record: a string map with one entry
/// per present field.
pub fn capabilities_to_pmt(c: &Capabilities) -> (p: Pmt)
    ensures
        pmtv(p) == PmtV::MapStrPmt(caps_entries(*c)),
{
    let mut es: Vec<(String, Pmt)> = Vec::new();
    match &c.frequency_range {
        Some(r) => {
            es.push((String::from_str("frequency_range"), range_to_pmt(r)));
        },
        None => {},
    }
    match &c.sample_rate_range {
        Some(r) => {
            es.push((String::from_str("sample_rate_range"), range_to_pmt(r)));
        },
        None => {},
    }
    match &c.bandwidth_range {
        Some(r) => {
            es.push((String::from_str("bandwidth_range"), range_to_pmt(r)));
        },
        None => {},
    }
    match &c.antennas {
        Some(names) => {
            let mut vs: Vec<Pmt> = Vec::new();
            let mut i: usize = 0;
            while i < names.len()
                invariant
                    0 <= i <= names@.len(),
                    vs@.len() == i,
                    forall|k: int| 0 <= k < i ==> pmtv(#[trigger] vs@[k]) == PmtV::Str(names@[k]@),
                decreases names@.len() - i,
            {
                vs.push(Pmt::Str(clone_string(&names[i])));
                i = i + 1;
            }
            proof {
                crate::pmt::lemma_pmtv_list(vs@);
                assert forall|k: int| 0 <= k < vs@.len() implies pmtv_list(vs@)[k] == antennas_v(
                    names@,
                )[k] by {
                    assert(pmtv(vs@[k]) == PmtV::Str(names@[k]@));
                }
                assert(pmtv_list(vs@) =~= antennas_v(names@));
            }
            es.push((String::from_str("antennas"), Pmt::VecPmt(vs)));
        },
        None => {},
    }
    match &c.gain_range {
        Some(r) => {
            es.push((String::from_str("gain_range"), range_to_pmt(r)));
        },
        None => {},
    }
    match &c.supports_agc {
        Some(b) => {
            es.push((String::from_str("supports_agc"), Pmt::Bool(*b)));
        },
        None => {},
    }
    let p = Pmt::MapStrPmt(es);
    proof {
        reveal_strlit("frequency_range");
        reveal_strlit("sample_rate_range");
        reveal_strlit("bandwidth_range");
        reveal_strlit("antennas");
        reveal_strlit("gain_range");
        reveal_strlit("supports_agc");
        crate::pmt::lemma_pmtv_entries(es@);
        assert forall|k: int| 0 <= k < es@.len() implies pmtv_entries(es@)[k] == caps_entries(
            *c,
        )[k] by {
            assert(pmtv_entries(es@)[k] == ((#[trigger] es@[k]).0@, pmtv(es@[k].1)));
        }
        assert(pmtv_entries(es@) =~= caps_entries(*c));
    }
    p
}

/// The parse of one range element from its Pmt model: a float is a
/// value; a map with float `min` and `max` is an interval, with a
/// float `step` a stepped interval; anything else fails.
pub open spec fn parse_item_v(m: PmtV) -> Option<RangeItem> {
    match m {
        PmtV::F64(b) => Some(RangeItem::Value(b)),
        PmtV::MapStrPmt(es) => {
            match (map_lookup_v(es, "min"@), map_lookup_v(es, "max"@)) {
                (Some(PmtV::F64(a)), Some(PmtV::F64(b))) => {
                    match map_lookup_v(es, "step"@) {
                        None => Some(RangeItem::Interval(a, b)),
                        Some(PmtV::F64(c)) => Some(RangeItem::Step(a, b, c)),
                        Some(_) => None,
                    }
                },
                _ => None,
            }
        },
        _ => None,
    }
}

/// Lookup in a model entry list: the first entry with the key wins.
pub open spec fn map_lookup_v(entries: Seq<(Seq<char>, PmtV)>, key: Seq<char>) -> Option<PmtV>
    decreases entries,
{
    if entries.len() == 0 {
        None
    } else if entries[0].0 == key {
        Some(entries[0].1)
    } else {
        map_lookup_v(entries.drop_first(), key)
    }
}

/// The parse of a whole range from its Pmt model: a vector whose every
/// element parses; one bad element fails the range.
pub open spec fn parse_range_v(m: PmtV) -> Option<Seq<RangeItem>>
    decreases m,
{
    match m {
        PmtV::VecPmt(items) => parse_items_v(items),
        _ => None,
    }
}

/// The parse of a model sequence of range elements.
pub open spec fn parse_items_v(items: Seq<PmtV>) -> Option<Seq<RangeItem>>
    decreases items,
{
    if items.len() == 0 {
        Some(Seq::empty())
    } else {
        match (parse_item_v(items[0]), parse_items_v(items.drop_first())) {
            (Some(head), Some(tail)) => Some(seq![head] + tail),
            _ => None,
        }
    }
}

/// The parse of an antenna list from its Pmt model: a vector of
/// strings; one non-string fails the list.
pub open spec fn parse_antennas_v(m: PmtV) -> Option<Seq<Seq<char>>> {
    match m {
        PmtV::VecPmt(items) => {
            if forall|i: int| 0 <= i < items.len() ==> (#[trigger] items[i]) is Str {
                Some(Seq::new(items.len(), |i: int| items[i]->Str_0))
            } else {
                None
            }
        },
        _ => None,
    }
}

/// A field of the capabilities map, parsed with `f`; a missing key or
/// a failed parse leaves the field empty.
pub open spec fn field_range(es: Seq<(String, Pmt)>, key: Seq<char>) -> Option<Seq<RangeItem>> {
    match map_lookup(es, key) {
        None => None,
        Some(p) => parse_range_v(pmtv(p)),
    }
}

/// The items of an optional range.
pub open spec fn opt_items(r: Option<Range>) -> Option<Seq<RangeItem>> {
    match r {
        Some(rr) => Some(rr.items@),
        None => None,
    }
}

/// The views of an optional antenna list.
pub open spec fn opt_names(r: Option<Vec<String>>) -> Option<Seq<Seq<char>>> {
    match r {
        Some(v) => Some(Seq::new(v@.len(), |i: int| v@[i]@)),
        None => None,
    }
}

/// Parses one range element.
fn parse_item(p: &Pmt) -> (r: Option<RangeItem>)
    ensures
        r == parse_item_v(pmtv(*p)),
{
    match p {
        Pmt::F64(b) => Some(RangeItem::Value(*b)),
        Pmt::MapStrPmt(es) => {
            proof {
                lemma_lookup_v(es@, "min"@);
                lemma_lookup_v(es@, "max"@);
                lemma_lookup_v(es@, "step"@);
            }
            let min_v = p.map_get("min");
            let max_v = p.map_get("max");
            let a = match min_v {
                Some(Pmt::F64(a)) => *a,
                _ => {
                    return None;
                },
            };
            let b = match max_v {
                Some(Pmt::F64(b)) => *b,
                _ => {
                    return None;
                },
            };
            match p.map_get("step") {
                None => Some(RangeItem::Interval(a, b)),
                Some(Pmt::F64(c)) => Some(RangeItem::Step(a, b, *c)),
                Some(_) => None,
            }
        },
        _ => None,
    }
}

/// Model lookup agrees with value lookup: looking a key up among the
/// entries and taking the model is looking it up among the models.
proof fn lemma_lookup_v(es: Seq<(String, Pmt)>, key: Seq<char>)
    ensures
        map_lookup_v(pmtv_entries(es), key) == (match map_lookup(es, key) {
            Some(p) => Some(pmtv(p)),
            None => None,
        }),
    decreases es,
{
    if es.len() > 0 {
        lemma_lookup_v(es.drop_first(), key);
        assert(pmtv_entries(es).drop_first() =~= pmtv_entries(es.drop_first()));
    }
}

/// Parses a range.
fn parse_range(p: &Pmt) -> (r: Option<Range>)
    ensures
        match r {
            Some(rr) => parse_range_v(pmtv(*p)) == Some(rr.items@),
            None => parse_range_v(pmtv(*p)) is None,
        },
{
    match p {
        Pmt::VecPmt(items) => {
            let mut out: Vec<RangeItem> = Vec::new();
            let mut i: usize = 0;
            proof {
                crate::pmt::lemma_pmtv_list(items@);
                assert(pmtv_list(items@).skip(0) =~= pmtv_list(items@));
            }
            while i < items.len()
                invariant
                    *p == Pmt::VecPmt(*items),
                    0 <= i <= items@.len(),
                    pmtv_list(items@).len() == items@.len(),
                    forall|k: int|
                        0 <= k < items@.len() ==> pmtv_list(items@)[k] == pmtv(
                            #[trigger] items@[k],
                        ),
                    parse_items_v(pmtv_list(items@)) == (match parse_items_v(
                        pmtv_list(items@).skip(i as int),
                    ) {
                        Some(tail) => Some(out@ + tail),
                        None => None,
                    }),
                decreases items@.len() - i,
            {
                proof {
                    assert(pmtv_list(items@).skip(i as int).drop_first() =~= pmtv_list(
                        items@,
                    ).skip(i + 1));
                    assert(pmtv_list(items@).skip(i as int)[0] == pmtv_list(items@)[i as int]);
                }
                match parse_item(&items[i]) {
                    Some(it) => {
                        out.push(it);
                    },
                    None => {
                        return None;
                    },
                }
                i = i + 1;
            }
            proof {
                assert(pmtv_list(items@).skip(items@.len() as int) =~= Seq::<PmtV>::empty());
                assert(out@ + Seq::<RangeItem>::empty() =~= out@);
            }
            Some(Range { items: out })
        },
        _ => None,
    }
}

/// Builds a capabilities record back from its Pmt map form. Only a
/// string map is accepted; within it, each recognized field is taken
/// when its entry parses, and left empty otherwise.
pub fn capabilities_from_pmt(p: &Pmt) -> (r: Result<Capabilities, Error>)
    ensures
        match *p {
            Pmt::MapStrPmt(entries) => {
                match r {
                    Ok(c) => {
                        &&& opt_items(c.frequency_range) == field_range(
                            entries@,
                            "frequency_range"@,
                        )
                        &&& opt_items(c.sample_rate_range) == field_range(
                            entries@,
                            "sample_rate_range"@,
                        )
                        &&& opt_items(c.bandwidth_range) == field_range(
                            entries@,
                            "bandwidth_range"@,
                        )
                        &&& opt_names(c.antennas) == (match map_lookup(entries@, "antennas"@) {
                            Some(v) => parse_antennas_v(pmtv(v)),
                            None => None,
                        })
                        &&& opt_items(c.gain_range) == field_range(entries@, "gain_range"@)
                        &&& c.supports_agc == (match map_lookup(entries@, "supports_agc"@) {
                            Some(Pmt::Bool(b)) => Some(b),
                            _ => None,
                        })
                    },
                    Err(_) => false,
                }
            },
            _ => r == Err::<Capabilities, Error>(Error::PmtValueError),
        },
{
    match p {
        Pmt::MapStrPmt(_) => {},
        _ => {
            return Err(Error::PmtValueError);
        },
    }
    let frequency_range = match p.map_get("frequency_range") {
        Some(v) => parse_range(v),
        None => None,
    };
    let sample_rate_range = match p.map_get("sample_rate_range") {
        Some(v) => parse_range(v),
        None => None,
    };
    let bandwidth_range = match p.map_get("bandwidth_range") {
        Some(v) => parse_range(v),
        None => None,
    };
    let antennas = match p.map_get("antennas") {
        Some(v) => parse_antennas(v),
        None => None,
    };
    let gain_range = match p.map_get("gain_range") {
        Some(v) => parse_range(v),
        None => None,
    };
    let supports_agc = match p.map_get("supports_agc") {
        Some(Pmt::Bool(b)) => Some(*b),
        _ => None,
    };
    Ok(
        Capabilities {
            frequency_range,
            sample_rate_range,
            bandwidth_range,
            antennas,
            gain_range,
            supports_agc,
        },
    )
}

/// Parses an antenna list.
fn parse_antennas(p: &Pmt) -> (r: Option<Vec<String>>)
    ensures
        match r {
            Some(v) => parse_antennas_v(pmtv(*p)) == Some(
                Seq::new(v@.len(), |i: int| v@[i]@),
            ),
            None => parse_antennas_v(pmtv(*p)) is None,
        },
{
    match p {
        Pmt::VecPmt(items) => {
            let mut out: Vec<String> = Vec::new();
            let mut i: usize = 0;
            proof {
                crate::pmt::lemma_pmtv_list(items@);
            }
            while i < items.len()
                invariant
                    *p == Pmt::VecPmt(*items),
                    0 <= i <= items@.len(),
                    out@.len() == i,
                    pmtv_list(items@).len() == items@.len(),
                    forall|k: int|
                        0 <= k < items@.len() ==> pmtv_list(items@)[k] == pmtv(
                            #[trigger] items@[k],
                        ),
                    forall|k: int| 0 <= k < i ==> pmtv_list(items@)[k] is Str,
                    forall|k: int|
                        0 <= k < i ==> (#[trigger] out@[k])@ == pmtv_list(items@)[k]->Str_0,
                decreases items@.len() - i,
            {
                match &items[i] {
                    Pmt::Str(s) => {
                        out.push(clone_string(s));
                    },
                    _ => {
                        proof {
                            assert(pmtv_list(items@)[i as int] == pmtv(items@[i as int]));
                            assert(!(pmtv_list(items@)[i as int] is Str));
                        }
                        return None;
                    },
                }
                i = i + 1;
            }
            proof {
                assert(parse_antennas_v(pmtv(*p)) == Some(
                    Seq::new(pmtv_list(items@).len(), |k: int| pmtv_list(items@)[k]->Str_0),
                ));
                assert(Seq::new(pmtv_list(items@).len(), |k: int| pmtv_list(items@)[k]->Str_0)
                    =~= Seq::new(out@.len(), |k: int| out@[k]@));
            }
            Some(out)
        },
        _ => None,
    }
}

} // verus!
