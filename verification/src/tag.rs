//! Out-of-band tags: metadata attached to specific item positions in a
//! stream, and the default positional propagation from inputs to outputs.

use vstd::prelude::*;
use crate::pmt::Pmt;
use crate::pmt::PmtV;
use crate::pmt::pmtv;
use crate::pmt::pmtv_list;
use crate::pmt::pmtv_entries;

verus! {

/// Payload of a tag. Opaque payloads are carried as byte blobs; float
/// payloads hold the IEEE-754 bit pattern.
#[derive(Debug)]
pub enum Tag {
    /// Numeric identifier.
    Id(u64),
    /// String label.
    Str(String),
    /// Structured value.
    Data(Pmt),
    /// Named 32-bit float, as its bit pattern.
    NamedF32(String, u32),
    /// Named opaque payload.
    NamedBlob(String, Vec<u8>),
}

/// Mathematical model of a tag payload.
pub enum TagV {
    Id(u64),
    Str(Seq<char>),
    Data(PmtV),
    NamedF32(Seq<char>, u32),
    NamedBlob(Seq<char>, Seq<u8>),
}

/// The model of a tag.
pub open spec fn tagv(t: Tag) -> TagV {
    match t {
        Tag::Id(v) => TagV::Id(v),
        Tag::Str(s) => TagV::Str(s@),
        Tag::Data(p) => TagV::Data(pmtv(p)),
        Tag::NamedF32(s, v) => TagV::NamedF32(s@, v),
        Tag::NamedBlob(s, v) => TagV::NamedBlob(s@, v@),
    }
}

/// A tag bound to an item offset within the current slice.
#[derive(Debug)]
pub struct ItemTag {
    /// Offset in items from the beginning of the current slice.
    pub index: usize,
    /// The tag payload.
    pub tag: Tag,
}

/// Model of an item tag: offset and tag model.
pub struct ItemTagV {
    /// Offset in items.
    pub index: usize,
    /// The tag payload model.
    pub tag: TagV,
}

/// The model of an item tag.
pub open spec fn itemtagv(t: ItemTag) -> ItemTagV {
    ItemTagV { index: t.index, tag: tagv(t.tag) }
}

/// The models of a sequence of item tags.
pub open spec fn itags(ts: Seq<ItemTag>) -> Seq<ItemTagV> {
    Seq::new(ts.len(), |i: int| itemtagv(ts[i]))
}

/// A read slice handed to a work call: consumed item count, its tags,
/// and whether the upstream writer is finished.
#[derive(Debug)]
pub struct StreamInput {
    /// Items consumed from this input in the current work call.
    pub consumed: usize,
    /// Tags of the consumed range, indexed from the slice start.
    pub tags: Vec<ItemTag>,
    /// Whether the upstream writer has finished.
    pub done: bool,
}

/// A write slice handed to a work call: produced item count and the
/// tags attached to it.
#[derive(Debug)]
pub struct StreamOutput {
    /// Items produced to this output in the current work call.
    pub produced: usize,
    /// Tags to attach to the produced range, indexed from the slice start.
    pub tags: Vec<ItemTag>,
}

/// The tags of `tags` whose index lies in `lo..hi`, rebased to `lo`,
/// in their original order.
pub open spec fn tags_in_range(tags: Seq<ItemTagV>, lo: int, hi: int) -> Seq<ItemTagV>
    decreases tags,
{
    if tags.len() == 0 {
        Seq::empty()
    } else {
        let head = tags[0];
        let rest = tags_in_range(tags.drop_first(), lo, hi);
        if lo <= head.index < hi {
            seq![ItemTagV { index: (head.index - lo) as usize, tag: head.tag }] + rest
        } else {
            rest
        }
    }
}

/// A tag list floor-mapped from a consumed range onto a produced
/// range: tags at offsets below `consumed` are kept in order, each
/// moved to offset `index * produced / consumed` (the identity at a
/// one-to-one rate); tags outside the consumed range are dropped.
pub open spec fn floor_mapped(tags: Seq<ItemTagV>, consumed: int, produced: int) -> Seq<
    ItemTagV,
>
    decreases tags,
{
    if tags.len() == 0 {
        Seq::empty()
    } else {
        let head = tags[0];
        let rest = floor_mapped(tags.drop_first(), consumed, produced);
        if (head.index as int) < consumed {
            seq![
                ItemTagV { index: ((head.index * produced) / consumed) as usize, tag: head.tag },
            ] + rest
        } else {
            rest
        }
    }
}

/// The tags every input contributes to an output that produced
/// `produced` items: each input's tags in its consumed range,
/// floor-mapped onto the produced range, inputs in order.
pub open spec fn gathered_tags(inputs: Seq<StreamInput>, produced: int) -> Seq<ItemTagV>
    decreases inputs,
{
    if inputs.len() == 0 {
        Seq::empty()
    } else {
        floor_mapped(itags(inputs[0].tags@), inputs[0].consumed as int, produced)
            + gathered_tags(inputs.drop_first(), produced)
    }
}

/// Floor-mapping one more tag appends its mapped form, if kept.
pub(crate) proof fn lemma_floor_mapped_snoc(tags: Seq<ItemTagV>, x: ItemTagV, consumed: int, produced: int)
    ensures
        floor_mapped(tags.push(x), consumed, produced) == floor_mapped(tags, consumed, produced)
            + (if (x.index as int) < consumed {
            seq![ItemTagV { index: ((x.index * produced) / consumed) as usize, tag: x.tag }]
        } else {
            Seq::empty()
        }),
    decreases tags,
{
    let tail = (if (x.index as int) < consumed {
        seq![ItemTagV { index: ((x.index * produced) / consumed) as usize, tag: x.tag }]
    } else {
        Seq::<ItemTagV>::empty()
    });
    if tags.len() == 0 {
        assert(tags.push(x).drop_first() =~= Seq::<ItemTagV>::empty());
        assert(tags.push(x)[0] == x);
        assert(floor_mapped(Seq::<ItemTagV>::empty(), consumed, produced) =~= Seq::<
            ItemTagV,
        >::empty());
        assert(floor_mapped(tags.push(x), consumed, produced) =~= tail);
        assert(floor_mapped(tags, consumed, produced) + tail =~= tail);
    } else {
        lemma_floor_mapped_snoc(tags.drop_first(), x, consumed, produced);
        assert(tags.push(x).drop_first() =~= tags.drop_first().push(x));
        assert(tags.push(x)[0] == tags[0]);
        if (tags[0].index as int) < consumed {
            let head = seq![
                ItemTagV {
                    index: ((tags[0].index * produced) / consumed) as usize,
                    tag: tags[0].tag,
                },
            ];
            assert(floor_mapped(tags.push(x), consumed, produced) =~= head + (floor_mapped(
                tags.drop_first(),
                consumed,
                produced,
            ) + tail));
            assert(floor_mapped(tags, consumed, produced) + tail =~= head + (floor_mapped(
                tags.drop_first(),
                consumed,
                produced,
            ) + tail));
        }
    }
}

/// The tags with offsets below `limit`, kept in order unchanged.
pub open spec fn clip_tags(tags: Seq<ItemTagV>, limit: int) -> Seq<ItemTagV>
    decreases tags,
{
    if tags.len() == 0 {
        Seq::empty()
    } else {
        let rest = clip_tags(tags.drop_first(), limit);
        if (tags[0].index as int) < limit {
            seq![tags[0]] + rest
        } else {
            rest
        }
    }
}

/// Clipping one more tag appends it, if kept.
pub(crate) proof fn lemma_clip_tags_snoc(tags: Seq<ItemTagV>, x: ItemTagV, limit: int)
    ensures
        clip_tags(tags.push(x), limit) == clip_tags(tags, limit) + (if (x.index as int) < limit {
            seq![x]
        } else {
            Seq::empty()
        }),
    decreases tags,
{
    let tail = (if (x.index as int) < limit {
        seq![x]
    } else {
        Seq::<ItemTagV>::empty()
    });
    if tags.len() == 0 {
        assert(tags.push(x).drop_first() =~= Seq::<ItemTagV>::empty());
        assert(tags.push(x)[0] == x);
        assert(clip_tags(Seq::<ItemTagV>::empty(), limit) =~= Seq::<ItemTagV>::empty());
        assert(clip_tags(tags.push(x), limit) =~= tail);
        assert(clip_tags(tags, limit) + tail =~= tail);
    } else {
        lemma_clip_tags_snoc(tags.drop_first(), x, limit);
        assert(tags.push(x).drop_first() =~= tags.drop_first().push(x));
        assert(tags.push(x)[0] == tags[0]);
        if (tags[0].index as int) < limit {
            assert(clip_tags(tags.push(x), limit) =~= seq![tags[0]] + (clip_tags(
                tags.drop_first(),
                limit,
            ) + tail));
            assert(clip_tags(tags, limit) + tail =~= seq![tags[0]] + (clip_tags(
                tags.drop_first(),
                limit,
            ) + tail));
        }
    }
}

/// Clipping changes nothing when every offset is already below the
/// limit.
pub(crate) proof fn lemma_clip_tags_noop(tags: Seq<ItemTagV>, limit: int)
    requires
        forall|i: int| 0 <= i < tags.len() ==> ((#[trigger] tags[i]).index as int) < limit,
    ensures
        clip_tags(tags, limit) == tags,
    decreases tags,
{
    if tags.len() > 0 {
        lemma_clip_tags_noop(tags.drop_first(), limit);
        assert(clip_tags(tags, limit) =~= tags);
    }
}

/// The tags at offsets moved up by `base`, dropping any whose shifted
/// offset would not fit the machine word.
pub open spec fn shift_clip_tags(tags: Seq<ItemTagV>, base: int) -> Seq<ItemTagV>
    decreases tags,
{
    if tags.len() == 0 {
        Seq::empty()
    } else {
        let rest = shift_clip_tags(tags.drop_first(), base);
        if tags[0].index + base <= usize::MAX {
            seq![ItemTagV { index: (tags[0].index + base) as usize, tag: tags[0].tag }] + rest
        } else {
            rest
        }
    }
}

/// Shift-clipping one more tag appends its shifted form, if it fits.
pub(crate) proof fn lemma_shift_clip_tags_snoc(tags: Seq<ItemTagV>, x: ItemTagV, base: int)
    ensures
        shift_clip_tags(tags.push(x), base) == shift_clip_tags(tags, base) + (if x.index + base
            <= usize::MAX {
            seq![ItemTagV { index: (x.index + base) as usize, tag: x.tag }]
        } else {
            Seq::empty()
        }),
    decreases tags,
{
    let tail = (if x.index + base <= usize::MAX {
        seq![ItemTagV { index: (x.index + base) as usize, tag: x.tag }]
    } else {
        Seq::<ItemTagV>::empty()
    });
    if tags.len() == 0 {
        assert(tags.push(x).drop_first() =~= Seq::<ItemTagV>::empty());
        assert(tags.push(x)[0] == x);
        assert(shift_clip_tags(Seq::<ItemTagV>::empty(), base) =~= Seq::<ItemTagV>::empty());
        assert(shift_clip_tags(tags.push(x), base) =~= tail);
        assert(shift_clip_tags(tags, base) + tail =~= tail);
    } else {
        lemma_shift_clip_tags_snoc(tags.drop_first(), x, base);
        assert(tags.push(x).drop_first() =~= tags.drop_first().push(x));
        assert(tags.push(x)[0] == tags[0]);
        if tags[0].index + base <= usize::MAX {
            let head = seq![
                ItemTagV { index: (tags[0].index + base) as usize, tag: tags[0].tag },
            ];
            assert(shift_clip_tags(tags.push(x), base) =~= head + (shift_clip_tags(
                tags.drop_first(),
                base,
            ) + tail));
            assert(shift_clip_tags(tags, base) + tail =~= head + (shift_clip_tags(
                tags.drop_first(),
                base,
            ) + tail));
        }
    }
}

/// Filtering one more tag appends its contribution.
proof fn lemma_tags_in_range_snoc(tags: Seq<ItemTagV>, x: ItemTagV, lo: int, hi: int)
    ensures
        tags_in_range(tags.push(x), lo, hi) == tags_in_range(tags, lo, hi) + (if lo <= x.index
            < hi {
            seq![ItemTagV { index: (x.index - lo) as usize, tag: x.tag }]
        } else {
            Seq::empty()
        }),
    decreases tags,
{
    let tail = (if lo <= x.index < hi {
        seq![ItemTagV { index: (x.index - lo) as usize, tag: x.tag }]
    } else {
        Seq::<ItemTagV>::empty()
    });
    if tags.len() == 0 {
        assert(tags.push(x).drop_first() =~= Seq::<ItemTagV>::empty());
        assert(tags.push(x)[0] == x);
        assert(tags_in_range(Seq::<ItemTagV>::empty(), lo, hi) =~= Seq::<ItemTagV>::empty());
        assert(tags_in_range(tags.push(x), lo, hi) =~= tail);
        assert(tags_in_range(tags, lo, hi) + tail =~= tail);
    } else {
        lemma_tags_in_range_snoc(tags.drop_first(), x, lo, hi);
        assert(tags.push(x).drop_first() =~= tags.drop_first().push(x));
        assert(tags.push(x)[0] == tags[0]);
        if lo <= tags[0].index < hi {
            let head = seq![
                ItemTagV { index: (tags[0].index - lo) as usize, tag: tags[0].tag },
            ];
            assert(tags_in_range(tags.push(x), lo, hi) =~= head + (tags_in_range(
                tags.drop_first(),
                lo,
                hi,
            ) + tail));
            assert(tags_in_range(tags, lo, hi) + tail =~= head + (tags_in_range(
                tags.drop_first(),
                lo,
                hi,
            ) + tail));
        }
    }
}

/// Every filtered tag lies below the width of the range.
pub proof fn lemma_tags_in_range_bounded(tags: Seq<ItemTagV>, lo: int, hi: int)
    ensures
        forall|i: int|
            0 <= i < tags_in_range(tags, lo, hi).len() ==> (#[trigger] tags_in_range(
                tags,
                lo,
                hi,
            )[i]).index < hi - lo,
    decreases tags,
{
    if tags.len() > 0 {
        lemma_tags_in_range_bounded(tags.drop_first(), lo, hi);
    }
}

/// Gathering from one more input appends that input's contribution.
proof fn lemma_gathered_snoc(inputs: Seq<StreamInput>, x: StreamInput, produced: int)
    ensures
        gathered_tags(inputs.push(x), produced) == gathered_tags(inputs, produced)
            + floor_mapped(itags(x.tags@), x.consumed as int, produced),
    decreases inputs,
{
    let tail = floor_mapped(itags(x.tags@), x.consumed as int, produced);
    if inputs.len() == 0 {
        assert(inputs.push(x).drop_first() =~= Seq::<StreamInput>::empty());
        assert(inputs.push(x)[0] == x);
        assert(gathered_tags(Seq::<StreamInput>::empty(), produced) =~= Seq::<ItemTagV>::empty());
        assert(gathered_tags(inputs.push(x), produced) =~= tail);
        assert(gathered_tags(inputs, produced) + tail =~= tail);
    } else {
        lemma_gathered_snoc(inputs.drop_first(), x, produced);
        assert(inputs.push(x).drop_first() =~= inputs.drop_first().push(x));
        assert(inputs.push(x)[0] == inputs[0]);
        let head = floor_mapped(itags(inputs[0].tags@), inputs[0].consumed as int, produced);
        assert(gathered_tags(inputs.push(x), produced) =~= head + (gathered_tags(
            inputs.drop_first(),
            produced,
        ) + tail));
        assert(gathered_tags(inputs, produced) + tail =~= head + (gathered_tags(
            inputs.drop_first(),
            produced,
        ) + tail));
    }
}

/// Copies a Pmt value; the models are equal.
pub fn clone_pmt(p: &Pmt) -> (r: Pmt)
    ensures
        pmtv(r) == pmtv(*p),
    decreases *p,
{
    match p {
        Pmt::Okay => Pmt::Okay,
        Pmt::InvalidValue => Pmt::InvalidValue,
        Pmt::Null => Pmt::Null,
        Pmt::Str(s) => Pmt::Str(clone_string(s)),
        Pmt::Bool(b) => Pmt::Bool(*b),
        Pmt::Usize(v) => Pmt::Usize(*v),
        Pmt::U32(v) => Pmt::U32(*v),
        Pmt::U64(v) => Pmt::U64(*v),
        Pmt::F32(v) => Pmt::F32(*v),
        Pmt::F64(v) => Pmt::F64(*v),
        Pmt::VecF32(v) => Pmt::VecF32(clone_vec_u32(v)),
        Pmt::VecU64(v) => Pmt::VecU64(clone_vec_u64(v)),
        Pmt::Blob(v) => Pmt::Blob(clone_vec_u8(v)),
        Pmt::VecPmt(v) => {
            let mut out: Vec<Pmt> = Vec::new();
            let mut i: usize = 0;
            while i < v.len()
                invariant
                    *p == Pmt::VecPmt(*v),
                    0 <= i <= v@.len(),
                    out@.len() == i,
                    forall|k: int| 0 <= k < i ==> pmtv(#[trigger] out@[k]) == pmtv(v@[k]),
                decreases v@.len() - i,
            {
                proof {
                    assert(decreases_to!(*p => p->VecPmt_0));
                    assert(decreases_to!(*v => v@));
                    assert(decreases_to!(v@ => v@[i as int]));
                    assert(decreases_to!(*p => v@[i as int]));
                }
                out.push(clone_pmt(&v[i]));
                i = i + 1;
            }
            proof {
                crate::pmt::lemma_pmtv_list(out@);
                crate::pmt::lemma_pmtv_list(v@);
                assert forall|k: int| 0 <= k < out@.len() implies pmtv_list(out@)[k]
                    == pmtv_list(v@)[k] by {
                    assert(pmtv(out@[k]) == pmtv(v@[k]));
                }
                assert(pmtv_list(out@) =~= pmtv_list(v@));
            }
            Pmt::VecPmt(out)
        },
        Pmt::Finished => Pmt::Finished,
        Pmt::MapStrPmt(es) => {
            let mut out: Vec<(String, Pmt)> = Vec::new();
            let mut i: usize = 0;
            while i < es.len()
                invariant
                    *p == Pmt::MapStrPmt(*es),
                    0 <= i <= es@.len(),
                    out@.len() == i,
                    forall|k: int|
                        0 <= k < i ==> (#[trigger] out@[k]).0@ == es@[k].0@ && pmtv(out@[k].1)
                            == pmtv(es@[k].1),
                decreases es@.len() - i,
            {
                proof {
                    assert(decreases_to!(*p => p->MapStrPmt_0));
                    assert(decreases_to!(*es => es@));
                    assert(decreases_to!(es@ => es@[i as int]));
                    assert(decreases_to!(es@[i as int] => es@[i as int].1));
                    assert(decreases_to!(*p => es@[i as int].1));
                }
                let key = clone_string(&es[i].0);
                let val = clone_pmt(&es[i].1);
                out.push((key, val));
                i = i + 1;
            }
            proof {
                crate::pmt::lemma_pmtv_entries(out@);
                crate::pmt::lemma_pmtv_entries(es@);
                assert forall|k: int| 0 <= k < out@.len() implies pmtv_entries(out@)[k]
                    == pmtv_entries(es@)[k] by {
                    assert(out@[k].0@ == es@[k].0@ && pmtv(out@[k].1) == pmtv(es@[k].1));
                }
                assert(pmtv_entries(out@) =~= pmtv_entries(es@));
            }
            Pmt::MapStrPmt(out)
        },
    }
}

/// Copies a string; the views are equal.
pub fn clone_string(s: &String) -> (r: String)
    ensures
        r@ == s@,
{
    s.clone()
}

/// Copies a u32 vector.
pub fn clone_vec_u32(v: &Vec<u32>) -> (r: Vec<u32>)
    ensures
        r@ == v@,
{
    let mut out: Vec<u32> = Vec::new();
    let mut i: usize = 0;
    while i < v.len()
        invariant
            0 <= i <= v@.len(),
            out@ =~= v@.take(i as int),
        decreases v@.len() - i,
    {
        out.push(v[i]);
        proof {
            assert(out@ =~= v@.take(i + 1));
        }
        i = i + 1;
    }
    proof {
        assert(v@.take(v@.len() as int) =~= v@);
    }
    out
}

/// Copies a u64 vector.
pub fn clone_vec_u64(v: &Vec<u64>) -> (r: Vec<u64>)
    ensures
        r@ == v@,
{
    let mut out: Vec<u64> = Vec::new();
    let mut i: usize = 0;
    while i < v.len()
        invariant
            0 <= i <= v@.len(),
            out@ =~= v@.take(i as int),
        decreases v@.len() - i,
    {
        out.push(v[i]);
        proof {
            assert(out@ =~= v@.take(i + 1));
        }
        i = i + 1;
    }
    proof {
        assert(v@.take(v@.len() as int) =~= v@);
    }
    out
}

/// Copies a byte vector.
pub fn clone_vec_u8(v: &Vec<u8>) -> (r: Vec<u8>)
    ensures
        r@ == v@,
{
    let mut out: Vec<u8> = Vec::new();
    let mut i: usize = 0;
    while i < v.len()
        invariant
            0 <= i <= v@.len(),
            out@ =~= v@.take(i as int),
        decreases v@.len() - i,
    {
        out.push(v[i]);
        proof {
            assert(out@ =~= v@.take(i + 1));
        }
        i = i + 1;
    }
    proof {
        assert(v@.take(v@.len() as int) =~= v@);
    }
    out
}

/// Copies a tag; the models are equal.
pub fn clone_tag(t: &Tag) -> (r: Tag)
    ensures
        tagv(r) == tagv(*t),
{
    match t {
        Tag::Id(v) => Tag::Id(*v),
        Tag::Str(s) => Tag::Str(clone_string(s)),
        Tag::Data(p) => Tag::Data(clone_pmt(p)),
        Tag::NamedF32(s, v) => Tag::NamedF32(clone_string(s), *v),
        Tag::NamedBlob(s, v) => Tag::NamedBlob(clone_string(s), clone_vec_u8(v)),
    }
}

/// Copies an item tag; the models are equal.
pub fn clone_item_tag(t: &ItemTag) -> (r: ItemTag)
    ensures
        itemtagv(r) == itemtagv(*t),
{
    ItemTag { index: t.index, tag: clone_tag(&t.tag) }
}

/// Appends to `out` the tags of `tags` with index in `lo..hi`, rebased
/// to `lo`, in order.
pub(crate) fn push_tags_in_range(out: &mut Vec<ItemTag>, tags: &Vec<ItemTag>, lo: usize, hi: usize)
    ensures
        itags(final(out)@) =~= itags(old(out)@) + tags_in_range(
            itags(tags@),
            lo as int,
            hi as int,
        ),
{
    let ghost base = out@;
    let mut i: usize = 0;
    proof {
        assert(itags(tags@.take(0)) =~= Seq::<ItemTagV>::empty());
        assert(itags(base) + tags_in_range(itags(tags@.take(0)), lo as int, hi as int) =~= itags(
            base,
        ));
    }
    while i < tags.len()
        invariant
            0 <= i <= tags@.len(),
            itags(out@) =~= itags(base) + tags_in_range(
                itags(tags@.take(i as int)),
                lo as int,
                hi as int,
            ),
        decreases tags@.len() - i,
    {
        let ghost pre = out@;
        let t = &tags[i];
        if lo <= t.index && t.index < hi {
            let moved = ItemTag { index: t.index - lo, tag: clone_tag(&t.tag) };
            out.push(moved);
            proof {
                assert(itags(out@) =~= itags(pre).push(
                    ItemTagV {
                        index: (tags@[i as int].index - lo) as usize,
                        tag: tagv(tags@[i as int].tag),
                    },
                ));
            }
        }
        proof {
            assert(itags(tags@.take(i + 1)) =~= itags(tags@.take(i as int)).push(
                itemtagv(tags@[i as int]),
            ));
            lemma_tags_in_range_snoc(
                itags(tags@.take(i as int)),
                itemtagv(tags@[i as int]),
                lo as int,
                hi as int,
            );
        }
        i = i + 1;
    }
    proof {
        assert(tags@.take(tags@.len() as int) =~= tags@);
    }
}

/// Appends to `out` the floor-mapped form of `tags`: offsets below
/// `consumed` move to `index * produced / consumed`, in order.
fn push_tags_floor(out: &mut Vec<ItemTag>, tags: &Vec<ItemTag>, consumed: usize, produced: usize)
    ensures
        itags(final(out)@) =~= itags(old(out)@) + floor_mapped(
            itags(tags@),
            consumed as int,
            produced as int,
        ),
{
    let ghost base = out@;
    let mut i: usize = 0;
    proof {
        assert(itags(tags@.take(0)) =~= Seq::<ItemTagV>::empty());
        assert(floor_mapped(Seq::<ItemTagV>::empty(), consumed as int, produced as int) =~= Seq::<
            ItemTagV,
        >::empty());
        assert(itags(base) + floor_mapped(
            itags(tags@.take(0)),
            consumed as int,
            produced as int,
        ) =~= itags(base));
    }
    while i < tags.len()
        invariant
            0 <= i <= tags@.len(),
            itags(out@) =~= itags(base) + floor_mapped(
                itags(tags@.take(i as int)),
                consumed as int,
                produced as int,
            ),
        decreases tags@.len() - i,
    {
        let ghost pre = out@;
        let t = &tags[i];
        if t.index < consumed {
            proof {
                let ii = t.index as int;
                let c = consumed as int;
                let p = produced as int;
                assert(ii * p <= c * p) by (nonlinear_arith)
                    requires
                        0 <= ii <= c,
                        p >= 0,
                ;
                assert(ii * p < 0x1_0000_0000_0000_0000_0000_0000_0000_0000) by (nonlinear_arith)
                    requires
                        0 <= ii < 0x1_0000_0000_0000_0000,
                        0 <= p < 0x1_0000_0000_0000_0000,
                ;
                vstd::arithmetic::div_mod::lemma_div_is_ordered(ii * p, c * p, c);
                vstd::arithmetic::div_mod::lemma_div_multiples_vanish(p, c);
                assert((ii * p) / c <= p);
            }
            let mapped128 = (t.index as u128) * (produced as u128) / (consumed as u128);
            let mapped = mapped128 as usize;
            let moved = ItemTag { index: mapped, tag: clone_tag(&t.tag) };
            out.push(moved);
            proof {
                assert(itags(out@) =~= itags(pre).push(
                    ItemTagV {
                        index: ((tags@[i as int].index * produced) / (consumed as int)) as usize,
                        tag: tagv(tags@[i as int].tag),
                    },
                ));
            }
        }
        proof {
            assert(itags(tags@.take(i + 1)) =~= itags(tags@.take(i as int)).push(
                itemtagv(tags@[i as int]),
            ));
            lemma_floor_mapped_snoc(
                itags(tags@.take(i as int)),
                itemtagv(tags@[i as int]),
                consumed as int,
                produced as int,
            );
        }
        i = i + 1;
    }
    proof {
        assert(tags@.take(tags@.len() as int) =~= tags@);
    }
}

/// Default tag propagation: every output that produced `k` items
/// receives, from every input, the tags in that input's consumed
/// range, floor-mapped onto the `k` produced items (the identity at a
/// one-to-one rate), inputs in declaration order.
pub fn default_tag_propagation(inputs: &Vec<StreamInput>, outputs: &mut Vec<StreamOutput>)
    ensures
        final(outputs)@.len() == old(outputs)@.len(),
        forall|j: int|
            0 <= j < old(outputs)@.len() ==> {
                &&& (#[trigger] final(outputs)@[j]).produced == old(outputs)@[j].produced
                &&& itags(final(outputs)@[j].tags@) =~= itags(old(outputs)@[j].tags@)
                    + gathered_tags(inputs@, old(outputs)@[j].produced as int)
            },
{
    let mut j: usize = 0;
    while j < outputs.len()
        invariant
            0 <= j <= outputs@.len(),
            outputs@.len() == old(outputs)@.len(),
            forall|k: int| j <= k < outputs@.len() ==> outputs@[k] == old(outputs)@[k],
            forall|k: int|
                0 <= k < j ==> {
                    &&& (#[trigger] outputs@[k]).produced == old(outputs)@[k].produced
                    &&& itags(outputs@[k].tags@) =~= itags(old(outputs)@[k].tags@)
                        + gathered_tags(inputs@, old(outputs)@[k].produced as int)
                },
        decreases outputs@.len() - j,
    {
        let limit = outputs[j].produced;
        let mut fresh: Vec<ItemTag> = Vec::new();
        let mut i: usize = 0;
        proof {
            assert(inputs@.take(0) =~= Seq::<StreamInput>::empty());
            assert(itags(fresh@) =~= gathered_tags(inputs@.take(0), limit as int));
        }
        while i < inputs.len()
            invariant
                0 <= i <= inputs@.len(),
                itags(fresh@) =~= gathered_tags(inputs@.take(i as int), limit as int),
            decreases inputs@.len() - i,
        {
            push_tags_floor(&mut fresh, &inputs[i].tags, inputs[i].consumed, limit);
            proof {
                lemma_gathered_snoc(inputs@.take(i as int), inputs@[i as int], limit as int);
                assert(inputs@.take(i + 1) =~= inputs@.take(i as int).push(inputs@[i as int]));
            }
            i = i + 1;
        }
        proof {
            assert(inputs@.take(inputs@.len() as int) =~= inputs@);
        }
        let ghost before = outputs@;
        let mut out_j = outputs.remove(j);
        let ghost prod = out_j.produced;
        let ghost base_tags = out_j.tags@;
        let mut k: usize = 0;
        while k < fresh.len()
            invariant
                0 <= k <= fresh@.len(),
                out_j.produced == prod,
                itags(out_j.tags@) =~= itags(base_tags) + itags(fresh@.take(k as int)),
            decreases fresh@.len() - k,
        {
            let ghost pre = out_j.tags@;
            let t = clone_item_tag(&fresh[k]);
            out_j.tags.push(t);
            proof {
                assert(itags(out_j.tags@) =~= itags(pre).push(itemtagv(fresh@[k as int])));
                assert(itags(fresh@.take(k + 1)) =~= itags(fresh@.take(k as int)).push(
                    itemtagv(fresh@[k as int]),
                ));
            }
            k = k + 1;
        }
        proof {
            assert(fresh@.take(fresh@.len() as int) =~= fresh@);
        }
        outputs.insert(j, out_j);
        proof {
            assert(outputs@ =~= before.update(j as int, out_j));
        }
        j = j + 1;
    }
}

} // verus!
