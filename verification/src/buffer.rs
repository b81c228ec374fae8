//! Single-writer, multi-reader stream buffer.
//!
//! The buffer keeps the full committed byte history and a consumption
//! cursor per reader; the writer's free space follows the ring rule:
//! capacity minus the bytes committed but not yet consumed by the
//! slowest reader. Tags ride along at absolute item positions.

use vstd::prelude::*;
use crate::tag::ItemTag;
use crate::tag::ItemTagV;
use crate::tag::itags;
use crate::tag::itemtagv;
use crate::tag::tags_in_range;
use crate::tag::clone_tag;

verus! {

/// What a reader sees when it polls the buffer.
#[derive(Clone, Copy, Debug, PartialEq, Eq, Structural)]
pub enum ReadSignal {
    /// This many items are readable now.
    Data(usize),
    /// The writer finished and everything was drained.
    Done,
    /// Nothing readable yet, and the writer has not finished.
    Pending,
}

/// The least element of a cursor sequence.
pub open spec fn seq_min(s: Seq<usize>) -> int
    decreases s.len(),
{
    if s.len() == 0 {
        0
    } else if s.len() == 1 {
        s[0] as int
    } else {
        let rest = seq_min(s.drop_first());
        if s[0] as int <= rest {
            s[0] as int
        } else {
            rest
        }
    }
}

/// The minimum is a lower bound.
pub proof fn lemma_seq_min_le(s: Seq<usize>, i: int)
    requires
        0 <= i < s.len(),
    ensures
        seq_min(s) <= s[i],
    decreases s.len(),
{
    if s.len() > 1 && i > 0 {
        lemma_seq_min_le(s.drop_first(), i - 1);
        assert(s.drop_first()[i - 1] == s[i]);
    }
}

/// The minimum is attained.
pub proof fn lemma_seq_min_witness(s: Seq<usize>)
    requires
        s.len() > 0,
    ensures
        exists|i: int| 0 <= i < s.len() && seq_min(s) == s[i],
    decreases s.len(),
{
    if s.len() == 1 {
        assert(seq_min(s) == s[0] as int);
    } else {
        lemma_seq_min_witness(s.drop_first());
        let j = choose|j: int|
            0 <= j < s.drop_first().len() && seq_min(s.drop_first()) == s.drop_first()[j];
        if s[0] as int <= seq_min(s.drop_first()) {
            assert(seq_min(s) == s[0] as int);
        } else {
            assert(s[j + 1] == s.drop_first()[j]);
            assert(seq_min(s) == s[j + 1] as int);
        }
    }
}

/// Bounded byte ring between one writer and one or more readers.
pub struct StreamBuffer {
    /// Bytes per item; fixed per edge.
    pub item_size: usize,
    /// Ring capacity in bytes, a multiple of the item size.
    pub capacity: usize,
    /// Every byte ever committed, in commit order.
    pub store: Vec<u8>,
    /// Items committed so far.
    pub items: usize,
    /// Per-reader consumption cursor, in items.
    pub cursors: Vec<usize>,
    /// Tags at absolute item positions.
    pub tags: Vec<ItemTag>,
    /// Whether the writer declared end-of-stream.
    pub done: bool,
    /// Per-reader record of the chunks handed out.
    pub logs: Ghost<Seq<Seq<Seq<u8>>>>,
}

impl StreamBuffer {
    /// Structure invariant.
    pub open spec fn wf(self) -> bool {
        &&& self.item_size >= 1
        &&& self.capacity >= self.item_size
        &&& self.capacity % self.item_size == 0
        &&& self.store@.len() == self.items * self.item_size
        &&& self.cursors@.len() >= 1
        &&& forall|i: int| 0 <= i < self.cursors@.len() ==> (#[trigger] self.cursors@[i]) <= self.items
        &&& (self.items - seq_min(self.cursors@)) * self.item_size <= self.capacity
        &&& self.logs@.len() == self.cursors@.len()
        &&& forall|i: int|
            0 <= i < self.cursors@.len() ==> (#[trigger] self.logs@[i]).flatten() == self.store@.take(
                self.cursors@[i] * self.item_size,
            )
    }

    /// All bytes committed so far, in order.
    pub open spec fn committed_bytes(self) -> Seq<u8> {
        self.store@
    }

    /// Concatenation of everything reader `i` has consumed, in order.
    pub open spec fn consumed_bytes(self, i: int) -> Seq<u8> {
        self.logs@[i].flatten()
    }

    /// Free space for the writer, in bytes.
    pub open spec fn spec_space(self) -> int {
        self.capacity - (self.items - seq_min(self.cursors@)) * self.item_size
    }

    /// What reader `i` would see on a poll.
    pub open spec fn spec_signal(self, i: int) -> ReadSignal {
        if self.cursors@[i] < self.items {
            ReadSignal::Data((self.items - self.cursors@[i]) as usize)
        } else if self.done {
            ReadSignal::Done
        } else {
            ReadSignal::Pending
        }
    }

    /// A fresh, empty buffer for `readers` readers.
    #[verifier::rlimit(100)]
    pub fn new(item_size: usize, capacity_items: usize, readers: usize) -> (r: StreamBuffer)
        requires
            item_size >= 1,
            capacity_items >= 1,
            readers >= 1,
            item_size * capacity_items <= usize::MAX,
        ensures
            r.wf(),
            r.item_size == item_size,
            r.capacity == item_size * capacity_items,
            r.items == 0,
            r.cursors@.len() == readers,
            forall|i: int| 0 <= i < readers ==> (#[trigger] r.cursors@[i]) == 0,
            !r.done,
            r.committed_bytes() == Seq::<u8>::empty(),
            forall|i: int| 0 <= i < readers ==> r.consumed_bytes(i) == Seq::<u8>::empty(),
            r.tags@.len() == 0,
    {
        let mut cursors: Vec<usize> = Vec::new();
        let mut i: usize = 0;
        while i < readers
            invariant
                0 <= i <= readers,
                cursors@.len() == i,
                forall|k: int| 0 <= k < i ==> (#[trigger] cursors@[k]) == 0,
            decreases readers - i,
        {
            cursors.push(0);
            i = i + 1;
        }
        let capacity = item_size * capacity_items;
        let ghost logs = Seq::new(readers as nat, |k: int| Seq::<Seq<u8>>::empty());
        let r = StreamBuffer {
            item_size,
            capacity,
            store: Vec::new(),
            items: 0,
            cursors,
            tags: Vec::new(),
            done: false,
            logs: Ghost(logs),
        };
        proof {
            assert(capacity % item_size == 0) by (nonlinear_arith)
                requires
                    capacity == item_size * capacity_items,
                    item_size >= 1,
            ;
            assert(capacity >= item_size) by (nonlinear_arith)
                requires
                    capacity == item_size * capacity_items,
                    item_size >= 1,
                    capacity_items >= 1,
            ;
            if r.cursors@.len() > 0 {
                lemma_seq_min_witness(r.cursors@);
                let w = choose|w: int|
                    0 <= w < r.cursors@.len() && seq_min(r.cursors@) == r.cursors@[w];
                assert(r.cursors@[w] == 0);
                assert(seq_min(r.cursors@) == 0);
            }
            assert forall|i2: int| 0 <= i2 < readers implies (#[trigger] r.logs@[i2]).flatten()
                == r.store@.take(r.cursors@[i2] * r.item_size) by {
                assert(r.logs@[i2] =~= Seq::<Seq<u8>>::empty());
                assert(Seq::<Seq<u8>>::empty().flatten() =~= Seq::<u8>::empty());
                assert(r.store@.take(0) =~= Seq::<u8>::empty());
            }
            assert(r.item_size >= 1);
            assert(r.capacity >= r.item_size);
            assert(r.capacity % r.item_size == 0);
            assert(r.store@.len() == 0);
            assert(r.items * r.item_size == 0) by (nonlinear_arith)
                requires
                    r.items == 0,
            ;
            assert(r.store@.len() == r.items * r.item_size);
            assert(r.cursors@.len() >= 1);
            assert((r.items - seq_min(r.cursors@)) * r.item_size == 0) by (nonlinear_arith)
                requires
                    r.items == 0,
                    seq_min(r.cursors@) == 0,
            ;
            assert((r.items - seq_min(r.cursors@)) * r.item_size <= r.capacity);
            assert(r.logs@.len() == r.cursors@.len());
            assert(r.wf());
        }
        r
    }

    /// Free writer space, in bytes.
    pub fn space(&self) -> (r: usize)
        requires
            self.wf(),
        ensures
            r == self.spec_space(),
    {
        let mut m: usize = self.cursors[0];
        let mut i: usize = 1;
        proof {
            lemma_seq_min_le(self.cursors@, 0);
        }
        while i < self.cursors.len()
            invariant
                self.wf(),
                1 <= i <= self.cursors@.len(),
                m as int == seq_min(self.cursors@.take(i as int)),
                m <= self.items,
            decreases self.cursors@.len() - i,
        {
            proof {
                lemma_seq_min_take_step(self.cursors@, i as int);
            }
            if self.cursors[i] < m {
                m = self.cursors[i];
            }
            i = i + 1;
        }
        proof {
            assert(self.cursors@.take(self.cursors@.len() as int) =~= self.cursors@);
            assert((self.items - m) * self.item_size <= self.capacity);
            assert((self.items - m) * self.item_size >= 0) by (nonlinear_arith)
                requires
                    m <= self.items,
                    self.item_size >= 1,
            ;
        }
        let lag = self.items - m;
        let lag_bytes = lag * self.item_size;
        self.capacity - lag_bytes
    }

    /// Commits `data` with its slice-relative `new_tags`; the bytes are
    /// appended to the committed history and the tags take absolute
    /// positions.
    pub fn commit(&mut self, data: &Vec<u8>, new_tags: &Vec<ItemTag>)
        requires
            old(self).wf(),
            !old(self).done,
            data@.len() as int % old(self).item_size as int == 0,
            data@.len() <= old(self).spec_space(),
            old(self).store@.len() + data@.len() <= usize::MAX,
            forall|i: int|
                0 <= i < new_tags@.len() ==> ((#[trigger] new_tags@[i]).index as int)
                    < (data@.len() as int) / (old(self).item_size as int),
        ensures
            final(self).wf(),
            final(self).item_size == old(self).item_size,
            final(self).capacity == old(self).capacity,
            final(self).done == old(self).done,
            final(self).cursors@ == old(self).cursors@,
            final(self).logs@ == old(self).logs@,
            final(self).committed_bytes() == old(self).committed_bytes() + data@,
            final(self).items == old(self).items + (data@.len() as int) / (old(self).item_size as int),
            itags(final(self).tags@) =~= itags(old(self).tags@) + shift_tags(
                itags(new_tags@),
                old(self).items as int,
            ),
    {
        let n_items = data.len() / self.item_size;
        proof {
            let d = data@.len() as int;
            let isi = self.item_size as int;
            vstd::arithmetic::div_mod::lemma_fundamental_div_mod(d, isi);
            assert(n_items as int == d / isi);
            vstd::arithmetic::mul::lemma_mul_is_commutative(n_items as int, isi);
            assert((n_items as int) * isi == d);
            assert(n_items as int <= (n_items as int) * isi) by (nonlinear_arith)
                requires
                    isi >= 1,
                    n_items as int >= 0,
            ;
        }
        let ghost before = *self;
        let mut k: usize = 0;
        while k < data.len()
            invariant
                0 <= k <= data@.len(),
                self.store@ =~= before.store@ + data@.take(k as int),
                self.item_size == before.item_size,
                self.capacity == before.capacity,
                self.items == before.items,
                self.cursors@ == before.cursors@,
                self.tags@ == before.tags@,
                self.done == before.done,
                self.logs@ == before.logs@,
            decreases data@.len() - k,
        {
            self.store.push(data[k]);
            proof {
                assert(data@.take(k + 1) =~= data@.take(k as int).push(data@[k as int]));
            }
            k = k + 1;
        }
        proof {
            assert(data@.take(data@.len() as int) =~= data@);
        }
        let base = self.items;
        proof {
            let isi = self.item_size as int;
            let b = base as int;
            let ni = n_items as int;
            assert((b + ni) * isi == b * isi + ni * isi) by (nonlinear_arith);
            assert(b + ni <= (b + ni) * isi) by (nonlinear_arith)
                requires
                    isi >= 1,
                    b + ni >= 0,
            ;
            assert(self.store@.len() <= usize::MAX);
        }
        let mut t: usize = 0;
        while t < new_tags.len()
            invariant
                0 <= t <= new_tags@.len(),
                self.store@ == before.store@ + data@,
                self.item_size == before.item_size,
                self.capacity == before.capacity,
                self.items == before.items,
                self.cursors@ == before.cursors@,
                self.done == before.done,
                self.logs@ == before.logs@,
                base == before.items,
                base + n_items <= usize::MAX,
                forall|i: int|
                    0 <= i < new_tags@.len() ==> (#[trigger] new_tags@[i]).index < n_items,
                itags(self.tags@) =~= itags(before.tags@) + shift_tags(
                    itags(new_tags@.take(t as int)),
                    base as int,
                ),
            decreases new_tags@.len() - t,
        {
            let ghost pre = self.tags@;
            let tag = &new_tags[t];
            let moved = ItemTag { index: base + tag.index, tag: clone_tag(&tag.tag) };
            self.tags.push(moved);
            proof {
                assert(itags(self.tags@) =~= itags(pre).push(
                    ItemTagV {
                        index: (base + new_tags@[t as int].index) as usize,
                        tag: itemtagv(new_tags@[t as int]).tag,
                    },
                ));
                assert(itags(new_tags@.take(t + 1)) =~= itags(new_tags@.take(t as int)).push(
                    itemtagv(new_tags@[t as int]),
                ));
                lemma_shift_tags_snoc(
                    itags(new_tags@.take(t as int)),
                    itemtagv(new_tags@[t as int]),
                    base as int,
                );
            }
            t = t + 1;
        }
        proof {
            assert(new_tags@.take(new_tags@.len() as int) =~= new_tags@);
        }
        self.items = self.items + n_items;
        proof {
            let isi = self.item_size as int;
            let a = self.items as int;
            let b = before.items as int;
            let ni = n_items as int;
            assert(a == b + ni);
            assert(a * isi == b * isi + ni * isi) by (nonlinear_arith)
                requires
                    a == b + ni,
            ;
            assert(self.store@.len() == a * isi);
            let mn = seq_min(self.cursors@);
            lemma_seq_min_witness(self.cursors@);
            assert(mn <= b) by {
                let w = choose|w: int|
                    0 <= w < self.cursors@.len() && seq_min(self.cursors@) == self.cursors@[w];
                assert(self.cursors@[w] <= before.items);
            }
            assert((a - mn) * isi == (b - mn) * isi + ni * isi) by (nonlinear_arith)
                requires
                    a == b + ni,
            ;
            assert((a - mn) * isi <= self.capacity);
            assert forall|i2: int| 0 <= i2 < self.cursors@.len() implies (#[trigger] self.logs@[
                i2
            ]).flatten() == self.store@.take(self.cursors@[i2] * self.item_size) by {
                assert(self.cursors@[i2] * isi <= b * isi) by (nonlinear_arith)
                    requires
                        self.cursors@[i2] <= b,
                        isi >= 1,
                ;
                assert(self.store@.take(self.cursors@[i2] * self.item_size) =~= before.store@.take(
                    self.cursors@[i2] * self.item_size,
                ));
            }
        }
    }

    /// How many items reader `r` may consume now.
    pub fn readable(&self, r: usize) -> (n: usize)
        requires
            self.wf(),
            r < self.cursors@.len(),
        ensures
            n == self.items - self.cursors@[r as int],
    {
        self.items - self.cursors[r]
    }

    /// What reader `r` sees: data, end-of-stream, or nothing yet.
    pub fn poll(&self, r: usize) -> (s: ReadSignal)
        requires
            self.wf(),
            r < self.cursors@.len(),
        ensures
            s == self.spec_signal(r as int),
    {
        if self.cursors[r] < self.items {
            ReadSignal::Data(self.items - self.cursors[r])
        } else if self.done {
            ReadSignal::Done
        } else {
            ReadSignal::Pending
        }
    }

    /// Consumes `n_items` for reader `r`, returning the bytes and the
    /// tags of the range rebased to the slice start.
    pub fn consume(&mut self, r: usize, n_items: usize) -> (out: (Vec<u8>, Vec<ItemTag>))
        requires
            old(self).wf(),
            r < old(self).cursors@.len(),
            n_items <= old(self).items - old(self).cursors@[r as int],
        ensures
            final(self).wf(),
            final(self).item_size == old(self).item_size,
            final(self).capacity == old(self).capacity,
            final(self).done == old(self).done,
            final(self).items == old(self).items,
            final(self).committed_bytes() == old(self).committed_bytes(),
            final(self).tags@ == old(self).tags@,
            final(self).cursors@ == old(self).cursors@.update(
                r as int,
                (old(self).cursors@[r as int] + n_items) as usize,
            ),
            out.0@ == old(self).store@.subrange(
                old(self).cursors@[r as int] * old(self).item_size,
                (old(self).cursors@[r as int] + n_items) * old(self).item_size,
            ),
            itags(out.1@) =~= tags_in_range(
                itags(old(self).tags@),
                old(self).cursors@[r as int] as int,
                old(self).cursors@[r as int] + n_items,
            ),
            final(self).consumed_bytes(r as int) == old(self).consumed_bytes(r as int) + out.0@,
            forall|i: int|
                0 <= i < final(self).cursors@.len() && i != r ==> final(self).consumed_bytes(i)
                    == old(self).consumed_bytes(i),
    {
        let cur = self.cursors[r];
        let is = self.item_size;
        let total = self.store.len();
        proof {
            let isi = is as int;
            assert((cur + n_items) * isi <= self.items * isi) by (nonlinear_arith)
                requires
                    cur + n_items <= self.items,
                    isi >= 1,
            ;
            assert(cur * isi >= 0) by (nonlinear_arith)
                requires
                    cur >= 0,
                    isi >= 0,
            ;
            assert((cur + n_items) * isi == cur * isi + n_items * isi) by (nonlinear_arith);
            assert(n_items * isi >= 0) by (nonlinear_arith)
                requires
                    n_items >= 0,
                    isi >= 0,
            ;
            assert(self.items * isi == total);
            assert(cur * isi + n_items * isi <= total);
        }
        let start = cur * is;
        let len_bytes = n_items * is;
        let mut bytes: Vec<u8> = Vec::new();
        let mut k: usize = 0;
        while k < len_bytes
            invariant
                0 <= k <= len_bytes,
                total == self.store@.len(),
                start + len_bytes <= total,
                bytes@ =~= self.store@.subrange(start as int, start as int + k),
                *self == *old(self),
            decreases len_bytes - k,
        {
            bytes.push(self.store[start + k]);
            proof {
                assert(self.store@.subrange(start as int, start as int + k + 1)
                    =~= self.store@.subrange(start as int, start as int + k).push(
                    self.store@[start as int + k],
                ));
            }
            k = k + 1;
        }
        let mut range_tags: Vec<ItemTag> = Vec::new();
        crate::tag::push_tags_in_range(&mut range_tags, &self.tags, cur, cur + n_items);
        proof {
            assert(itags(range_tags@) =~= itags(Seq::<ItemTag>::empty()) + tags_in_range(
                itags(self.tags@),
                cur as int,
                cur + n_items,
            ));
            assert(itags(Seq::<ItemTag>::empty()) + tags_in_range(
                itags(self.tags@),
                cur as int,
                cur + n_items,
            ) =~= tags_in_range(itags(self.tags@), cur as int, cur + n_items));
        }
        let ghost before = *self;
        self.cursors[r] = cur + n_items;
        proof {
            self.logs@ = self.logs@.update(
                r as int,
                self.logs@[r as int].push(bytes@),
            );
        }
        proof {
            let isi = is as int;
            broadcast use vstd::seq_lib::group_seq_properties;

            assert(self.logs@[r as int].flatten() =~= before.logs@[r as int].flatten() + bytes@)
                by {
                before.logs@[r as int].lemma_flatten_push(bytes@);
            }
            assert(self.store@.take(cur * isi) + self.store@.subrange(
                cur * isi,
                (cur + n_items) * isi,
            ) =~= self.store@.take((cur + n_items) * isi));
            lemma_seq_min_update_ge(before.cursors@, r as int, (cur + n_items) as usize);
            let mn0 = seq_min(before.cursors@);
            let mn1 = seq_min(self.cursors@);
            assert((self.items - mn1) * isi <= (self.items - mn0) * isi) by (nonlinear_arith)
                requires
                    mn0 <= mn1,
                    isi >= 0,
                    self.items >= mn1,
            ;
        }
        (bytes, range_tags)
    }

    /// Declares end-of-stream. Idempotent: finishing a finished buffer
    /// changes nothing.
    pub fn finish(&mut self)
        ensures
            *final(self) == spec_finish(*old(self)),
            old(self).done ==> *final(self) == *old(self),
    {
        self.done = true;
    }
}

/// The same tags at positions moved up by `base`.
pub open spec fn shift_tags(ts: Seq<ItemTagV>, base: int) -> Seq<ItemTagV> {
    Seq::new(ts.len(), |i: int| ItemTagV { index: (ts[i].index + base) as usize, tag: ts[i].tag })
}

/// Shifting one more tag appends its shifted form.
proof fn lemma_shift_tags_snoc(ts: Seq<ItemTagV>, x: ItemTagV, base: int)
    ensures
        shift_tags(ts.push(x), base) =~= shift_tags(ts, base).push(
            ItemTagV { index: (x.index + base) as usize, tag: x.tag },
        ),
{
}

/// The buffer after a finish: the same buffer, marked done.
pub open spec fn spec_finish(b: StreamBuffer) -> StreamBuffer {
    StreamBuffer { done: true, ..b }
}

/// Finishing twice equals finishing once.
pub proof fn lemma_finish_idempotent(b: StreamBuffer)
    ensures
        spec_finish(spec_finish(b)) == spec_finish(b),
{
}

/// Taking one more element can only keep or lower the running minimum;
/// the minimum over a prefix extended by one element.
proof fn lemma_seq_min_take_step(s: Seq<usize>, i: int)
    requires
        0 < i < s.len(),
    ensures
        seq_min(s.take(i + 1)) == if (s[i] as int) < seq_min(s.take(i)) {
            s[i] as int
        } else {
            seq_min(s.take(i))
        },
    decreases i,
{
    if i == 1 {
        assert(s.take(2).drop_first() =~= seq![s[1]]);
        assert(s.take(1) =~= seq![s[0]]);
        assert(seq_min(seq![s[1]]) == s[1] as int);
        assert(seq_min(seq![s[0]]) == s[0] as int);
        assert(s.take(2)[0] == s[0]);
    } else {
        lemma_seq_min_take_step(s.drop_first(), i - 1);
        assert(s.take(i + 1).drop_first() =~= s.drop_first().take(i));
        assert(s.take(i).drop_first() =~= s.drop_first().take(i - 1));
        assert(s.take(i + 1)[0] == s[0]);
        assert(s.take(i)[0] == s[0]);
        assert(s.drop_first()[i - 1] == s[i]);
    }
}

/// Raising one cursor cannot lower the minimum.
proof fn lemma_seq_min_update_ge(s: Seq<usize>, r: int, v: usize)
    requires
        0 <= r < s.len(),
        s[r] <= v,
    ensures
        seq_min(s) <= seq_min(s.update(r, v)),
    decreases s.len(),
{
    if s.len() > 1 {
        if r == 0 {
            assert(s.update(r, v).drop_first() =~= s.drop_first());
        } else {
            lemma_seq_min_update_ge(s.drop_first(), r - 1, v);
            assert(s.update(r, v).drop_first() =~= s.drop_first().update(r - 1, v));
            assert(s.update(r, v)[0] == s[0]);
        }
    }
}

/// No loss, duplication or reorder on a stream edge: what reader `i`
/// has consumed, concatenated in order, is exactly the prefix of the
/// writer's committed bytes up to that reader's cursor.
pub proof fn lemma_stream_conservation(b: StreamBuffer, i: int)
    requires
        b.wf(),
        0 <= i < b.cursors@.len(),
    ensures
        b.consumed_bytes(i) == b.committed_bytes().take(b.cursors@[i] * b.item_size),
        b.consumed_bytes(i).len() <= b.committed_bytes().len(),
{
    assert(b.cursors@[i] * b.item_size <= b.items * b.item_size) by (nonlinear_arith)
        requires
            b.cursors@[i] <= b.items,
            b.item_size >= 0,
    ;
}

/// Capacity rule: the bytes committed but not yet consumed by the
/// slowest reader never exceed the capacity, for any reader a bound.
pub proof fn lemma_capacity_bound(b: StreamBuffer, i: int)
    requires
        b.wf(),
        0 <= i < b.cursors@.len(),
    ensures
        (b.items - seq_min(b.cursors@)) * b.item_size <= b.capacity,
        (b.items - b.cursors@[i]) * b.item_size <= b.capacity,
{
    lemma_seq_min_le(b.cursors@, i);
    assert((b.items - b.cursors@[i]) * b.item_size <= (b.items - seq_min(b.cursors@))
        * b.item_size) by (nonlinear_arith)
        requires
            seq_min(b.cursors@) <= b.cursors@[i],
            b.item_size >= 0,
    ;
}

/// Backpressure: the writer's free space is bounded by every reader's
/// lag, so one slow reader stalls the writer for all.
pub proof fn lemma_backpressure(b: StreamBuffer, i: int)
    requires
        b.wf(),
        0 <= i < b.cursors@.len(),
    ensures
        b.spec_space() <= b.capacity - (b.items - b.cursors@[i]) * b.item_size,
{
    lemma_seq_min_le(b.cursors@, i);
    assert((b.items - b.cursors@[i]) * b.item_size <= (b.items - seq_min(b.cursors@))
        * b.item_size) by (nonlinear_arith)
        requires
            seq_min(b.cursors@) <= b.cursors@[i],
            b.item_size >= 0,
    ;
}

/// A finished, drained buffer reports `Done` to its reader.
pub proof fn lemma_done_visible(b: StreamBuffer, i: int)
    requires
        b.wf(),
        0 <= i < b.cursors@.len(),
        b.done,
        b.cursors@[i] == b.items,
    ensures
        b.spec_signal(i) == ReadSignal::Done,
{
}

} // verus!
