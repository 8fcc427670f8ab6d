//! The `Writer`, which appends mirrors to a bounded byte buffer with zeroed
//! padding between them, and the `Sizer`, which runs the same offset
//! arithmetic without emitting bytes.

use vstd::prelude::*;

use crate::arrays::{elements_of, lemma_run_image, run, run_image};
use crate::bytes::{push_bytes, push_zeros, zeros};
use crate::composite::next_offset;
use crate::internal::{align_delta, align_offset, align_up, lemma_align_delta_bounds};
use crate::layout::{
    lemma_pow2_positive, run_descriptor_spec, run_layout, run_size, stride_spec, LayoutDescriptor, LayoutRule,
};
use crate::mirror::{all_mirrors_wf, image, layouts, Mirror};

verus! {

/// Where a value described by `d` goes when the cursor stands at `offset`:
/// its first byte and the cursor after it, or `None` when that end would
/// pass `limit`. The writer and the sizer both advance through this.
fn reserve(offset: usize, d: LayoutDescriptor, limit: usize) -> (r: Option<(usize, usize)>)
    requires
        d.wf(),
        offset <= limit,
    ensures
        next_offset(offset as int, d) <= limit ==> r == Some(
            (align_up(offset as int, d.alignment as int) as usize, next_offset(offset as int, d) as usize),
        ),
        next_offset(offset as int, d) > limit ==> r is None,
{
    proof {
        lemma_pow2_positive(d.alignment as nat);
    }
    let pad = align_offset(offset, d.alignment);
    if limit - offset < pad {
        return None;
    }
    let start = offset + pad;
    if limit - start < d.size {
        return None;
    }
    Some((start, start + d.size))
}

/// The buffer contents after appending the bytes `b` of a value with the
/// given alignment to `w`.
pub open spec fn write_step(w: Seq<u8>, alignment: int, b: Seq<u8>) -> Seq<u8> {
    w + zeros(align_delta(w.len() as int, alignment) as nat) + b
}

/// The buffer contents after appending each of `vals` to `w` in turn.
pub open spec fn writes(w: Seq<u8>, vals: Seq<Mirror>) -> Seq<u8>
    decreases vals.len(),
{
    if vals.len() == 0 {
        w
    } else {
        write_step(writes(w, vals.drop_last()), vals.last().alignment as int, vals.last().bytes@)
    }
}

/// The sizer's offset after adding each of `descs` in turn, from `offset`.
pub open spec fn adds(offset: int, descs: Seq<LayoutDescriptor>) -> int
    decreases descs.len(),
{
    if descs.len() == 0 {
        offset
    } else {
        next_offset(adds(offset, descs.drop_last()), descs.last())
    }
}

/// Writing a sequence of values and sizing the same sequence agree: from a
/// buffer of length `n` and a sizer at `n`, the buffer ends exactly as long
/// as the sizer's final length.
pub proof fn lemma_writer_sizer_agree(w: Seq<u8>, vals: Seq<Mirror>)
    requires
        all_mirrors_wf(vals),
    ensures
        writes(w, vals).len() == adds(w.len() as int, layouts(vals)),
    decreases vals.len(),
{
    if vals.len() > 0 {
        let init = vals.drop_last();
        assert(all_mirrors_wf(init)) by {
            assert forall|i: int| 0 <= i < init.len() implies #[trigger] init[i].wf() by {
                assert(init[i] == vals[i]);
            }
        }
        lemma_writer_sizer_agree(w, init);
        assert(layouts(init) =~= layouts(vals).drop_last());
        assert(vals[vals.len() - 1].wf());
        lemma_pow2_positive(vals.last().alignment as nat);
        lemma_align_delta_bounds(writes(w, init).len() as int, vals.last().alignment as int);
    }
}

/// Writing a run and sizing it agree: after a buffer of any length `n`
/// takes the run's image, it is exactly as long as a sizer at `n` that adds
/// the run.
pub proof fn lemma_writer_sizer_agree_on_runs(w: Seq<u8>, elems: Seq<Mirror>, element: LayoutDescriptor, rule: LayoutRule)
    requires
        element.wf(),
        rule.wf(),
        elements_of(elems, element),
        elems.len() > 0,
        run_size(element, elems.len(), rule) <= usize::MAX,
    ensures
        write_step(w, element.alignment as int, run_image(elems, stride_spec(element, rule))).len()
            == next_offset(w.len() as int, run_descriptor_spec(element, elems.len(), rule)),
{
    lemma_run_image(elems, element, rule);
    lemma_pow2_positive(element.alignment as nat);
    lemma_align_delta_bounds(w.len() as int, element.alignment as int);
}

/// A fresh writer handed `vals` holds their image.
pub proof fn lemma_writes_image(vals: Seq<Mirror>)
    ensures
        writes(Seq::empty(), vals) == image(vals),
    decreases vals.len(),
{
    if vals.len() > 0 {
        lemma_writes_image(vals.drop_last());
    }
}

/// Failure of the byte sink behind a `Writer`.
#[derive(Clone, Copy, Debug, PartialEq, Eq, Structural)]
pub enum WriteError {
    /// The value, with the padding before it, does not fit in what is left
    /// of the buffer.
    CapacityExceeded,
}

/// Writes correctly aligned mirrors one after another into a buffer of fixed
/// capacity, with zeroed padding where needed.
pub struct Writer {
    rule: LayoutRule,
    capacity: usize,
    bytes: Vec<u8>,
}

impl Writer {
    /// Bytes written so far.
    pub closed spec fn written(&self) -> Seq<u8> {
        self.bytes@
    }

    /// Largest number of bytes this writer accepts.
    pub closed spec fn capacity_spec(&self) -> usize {
        self.capacity
    }

    pub closed spec fn rule_spec(&self) -> LayoutRule {
        self.rule
    }

    pub closed spec fn wf(&self) -> bool {
        &&& self.bytes@.len() <= self.capacity
        &&& self.rule.wf()
    }

    /// A writer that lays out runs of values under `rule` and accepts at most
    /// `capacity` bytes.
    pub fn new(rule: LayoutRule, capacity: usize) -> (r: Writer)
        requires
            rule.wf(),
        ensures
            r.wf(),
            r.written() == Seq::<u8>::empty(),
            r.written().len() <= r.capacity_spec(),
            r.capacity_spec() == capacity,
            r.rule_spec() == rule,
    {
        Writer { rule, capacity, bytes: Vec::new() }
    }

    /// Number of bytes written so far.
    pub fn len(&self) -> (r: usize)
        ensures
            r == self.written().len(),
    {
        self.bytes.len()
    }

    /// The bytes written so far.
    pub fn as_bytes(&self) -> (r: &[u8])
        ensures
            r@ == self.written(),
    {
        self.bytes.as_slice()
    }

    /// Write `value`, preceded by the zero bytes that align it, and return the
    /// offset of its first byte. When it does not fit, nothing is written.
    pub fn write(&mut self, value: &Mirror) -> (r: Result<usize, WriteError>)
        requires
            old(self).wf(),
            value.wf(),
        ensures
            final(self).wf(),
            final(self).written().len() <= final(self).capacity_spec(),
            final(self).capacity_spec() == old(self).capacity_spec(),
            final(self).rule_spec() == old(self).rule_spec(),
            next_offset(old(self).written().len() as int, value.layout()) <= old(self).capacity_spec() ==> {
                &&& r == Ok::<usize, WriteError>(
                    align_up(old(self).written().len() as int, value.alignment as int) as usize,
                )
                &&& final(self).written() == write_step(old(self).written(), value.alignment as int, value.bytes@)
            },
            next_offset(old(self).written().len() as int, value.layout()) > old(self).capacity_spec() ==> {
                &&& r == Err::<usize, WriteError>(WriteError::CapacityExceeded)
                &&& final(self).written() == old(self).written()
            },
    {
        let d = value.descriptor();
        match reserve(self.bytes.len(), d, self.capacity) {
            None => Err(WriteError::CapacityExceeded),
            Some((start, _end)) => {
                let pad = start - self.bytes.len();
                push_zeros(&mut self.bytes, pad);
                push_bytes(&mut self.bytes, value.as_bytes());
                Ok(start)
            },
        }
    }

    /// Write a contiguous run of values, all with the layout of the first,
    /// spaced by the array stride of the writer's rule: the first element at
    /// the next offset suited to its alignment, each later one a stride after
    /// the previous, zeroed gaps between them and nothing after the last.
    /// Returns the offset of the run's first byte; an empty run writes nothing
    /// and returns the current length.
    pub fn write_slice(&mut self, values: &Vec<Mirror>) -> (r: Result<usize, WriteError>)
        requires
            old(self).wf(),
            values@.len() > 0 ==> {
                let d = values@[0].layout();
                &&& elements_of(values@, d)
                &&& stride_spec(d, old(self).rule_spec()) <= usize::MAX
                &&& run_size(d, values@.len(), old(self).rule_spec()) <= usize::MAX
            },
        ensures
            final(self).wf(),
            final(self).written().len() <= final(self).capacity_spec(),
            final(self).capacity_spec() == old(self).capacity_spec(),
            final(self).rule_spec() == old(self).rule_spec(),
            values@.len() == 0 ==> {
                &&& r == Ok::<usize, WriteError>(old(self).written().len() as usize)
                &&& final(self).written() == old(self).written()
            },
            values@.len() > 0 ==> {
                let d = values@[0].layout();
                let a = d.alignment as int;
                let b = run_image(values@, stride_spec(d, old(self).rule_spec()));
                let start = align_up(old(self).written().len() as int, a);
                &&& b.len() == run_size(d, values@.len(), old(self).rule_spec())
                &&& start + b.len() <= old(self).capacity_spec() ==> {
                    &&& r == Ok::<usize, WriteError>(start as usize)
                    &&& final(self).written() == write_step(old(self).written(), a, b)
                }
                &&& start + b.len() > old(self).capacity_spec() ==> {
                    &&& r == Err::<usize, WriteError>(WriteError::CapacityExceeded)
                    &&& final(self).written() == old(self).written()
                }
            },
    {
        if values.len() == 0 {
            return Ok(self.bytes.len());
        }
        let d = values[0].descriptor();
        proof {
            assert(values@[0].wf());
        }
        let whole = run(values, d, &self.rule);
        self.write(&whole)
    }
}

/// Computes the buffer size needed by a series of values laid out one after
/// another, as a `Writer` would lay them out.
pub struct Sizer {
    offset: usize,
}

impl Sizer {
    /// Length in bytes of everything added so far.
    pub closed spec fn len_spec(&self) -> nat {
        self.offset as nat
    }

    /// A sizer with nothing added.
    pub fn new() -> (r: Sizer)
        ensures
            r.len_spec() == 0,
    {
        Sizer { offset: 0 }
    }

    /// Add a value described by `d` and return the offset where it would be
    /// written.
    pub fn add(&mut self, d: LayoutDescriptor) -> (r: usize)
        requires
            d.wf(),
            next_offset(old(self).len_spec() as int, d) <= usize::MAX,
        ensures
            r == align_up(old(self).len_spec() as int, d.alignment as int),
            final(self).len_spec() == next_offset(old(self).len_spec() as int, d),
    {
        let (start, end) = reserve(self.offset, d, usize::MAX).unwrap();
        self.offset = end;
        start
    }

    /// Add a contiguous run of `len` elements described by `element`, spaced
    /// as `Writer::write_slice` spaces them under `rule`, and return the offset
    /// where the run would start. An empty run adds nothing and returns the
    /// current length.
    pub fn add_slice(&mut self, element: LayoutDescriptor, len: usize, rule: &LayoutRule) -> (r: usize)
        requires
            element.wf(),
            rule.wf(),
            stride_spec(element, *rule) <= usize::MAX,
            run_size(element, len as nat, *rule) <= usize::MAX,
            len > 0 ==> next_offset(old(self).len_spec() as int, run_descriptor_spec(element, len as nat, *rule))
                <= usize::MAX,
        ensures
            len == 0 ==> r == old(self).len_spec() && final(self).len_spec() == old(self).len_spec(),
            len > 0 ==> {
                &&& r == align_up(old(self).len_spec() as int, element.alignment as int)
                &&& final(self).len_spec() == r + run_size(element, len as nat, *rule)
            },
    {
        if len == 0 {
            return self.offset;
        }
        let d = run_layout(element, len, *rule);
        self.add(d)
    }

    /// Number of bytes needed to hold everything added so far.
    pub fn len(&self) -> (r: usize)
        ensures
            r == self.len_spec(),
    {
        self.offset
    }
}

} // verus!
