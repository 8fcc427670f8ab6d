//! The struct layout compiler: field offsets, padding, size and alignment of a
//! composite, computed as one left-to-right fold over its fields.

use vstd::prelude::*;

use crate::internal::{align_delta, align_offset, align_up, lemma_align_delta_bounds, max, max_spec};
use crate::layout::{is_pow2, lemma_max_pow2, lemma_pow2_positive, LayoutDescriptor, LayoutRule};

verus! {

/// Every descriptor of the sequence is well formed.
pub open spec fn all_wf(fields: Seq<LayoutDescriptor>) -> bool {
    forall|i: int| 0 <= i < fields.len() ==> #[trigger] fields[i].wf()
}

/// Where a value described by `d` ends when placed at the first suitably
/// aligned position at or after `offset`.
pub open spec fn next_offset(offset: int, d: LayoutDescriptor) -> int {
    align_up(offset, d.alignment as int) + d.size
}

/// The running offset after laying out all of `fields` from offset 0.
pub open spec fn end_of(fields: Seq<LayoutDescriptor>) -> int
    decreases fields.len(),
{
    if fields.len() == 0 {
        0
    } else {
        next_offset(end_of(fields.drop_last()), fields.last())
    }
}

/// Offset of field `i`: the end of the fields before it, aligned up.
pub open spec fn offset_of(fields: Seq<LayoutDescriptor>, i: int) -> int {
    align_up(end_of(fields.take(i)), fields[i].alignment as int)
}

/// Padding inserted just before field `i`.
pub open spec fn padding_of(fields: Seq<LayoutDescriptor>, i: int) -> int {
    align_delta(end_of(fields.take(i)), fields[i].alignment as int)
}

/// Largest alignment among `fields`, or 0 when there are none.
pub open spec fn max_alignment(fields: Seq<LayoutDescriptor>) -> int
    decreases fields.len(),
{
    if fields.len() == 0 {
        0
    } else {
        max_spec(max_alignment(fields.drop_last()), fields.last().alignment as int)
    }
}

pub open spec fn struct_alignment(fields: Seq<LayoutDescriptor>, rule: LayoutRule) -> int {
    max_spec(rule.min_struct_alignment as int, max_alignment(fields))
}

pub open spec fn struct_size(fields: Seq<LayoutDescriptor>, rule: LayoutRule) -> int {
    if rule.pad_struct_end {
        align_up(end_of(fields), struct_alignment(fields, rule))
    } else {
        end_of(fields)
    }
}

/// The inputs on which a composite layout is defined: valid descriptors, a
/// non-zero struct alignment, and a size that fits in memory.
pub open spec fn layout_ok(fields: Seq<LayoutDescriptor>, rule: LayoutRule) -> bool {
    &&& all_wf(fields)
    &&& rule.wf()
    &&& (fields.len() > 0 || rule.min_struct_alignment > 0)
    &&& struct_size(fields, rule) <= usize::MAX
}

/// Derived layout of a composite.
pub struct CompositeLayout {
    /// Offset of each field, in declaration order.
    pub offsets: Vec<usize>,
    /// Padding inserted before each field.
    pub paddings: Vec<usize>,
    pub size: usize,
    pub alignment: usize,
}

impl CompositeLayout {
    /// The composite layout compiled from `fields` under `rule`.
    pub open spec fn of(self, fields: Seq<LayoutDescriptor>, rule: LayoutRule) -> bool {
        &&& self.offsets@.len() == fields.len()
        &&& self.paddings@.len() == fields.len()
        &&& forall|i: int| 0 <= i < fields.len() ==> self.offsets@[i] == #[trigger] offset_of(fields, i)
        &&& forall|i: int| 0 <= i < fields.len() ==> self.paddings@[i] == #[trigger] padding_of(fields, i)
        &&& self.size == struct_size(fields, rule)
        &&& self.alignment == struct_alignment(fields, rule)
    }

    /// The descriptor under which this composite nests in another one.
    pub fn descriptor(&self) -> (r: LayoutDescriptor)
        ensures
            r == (LayoutDescriptor { alignment: self.alignment, size: self.size }),
    {
        LayoutDescriptor { alignment: self.alignment, size: self.size }
    }
}

proof fn lemma_take_drop_last(fields: Seq<LayoutDescriptor>, i: int)
    requires
        0 <= i < fields.len(),
    ensures
        fields.take(i + 1).drop_last() == fields.take(i),
        fields.take(i + 1).last() == fields[i],
{
    assert(fields.take(i + 1).drop_last() =~= fields.take(i));
}

/// Laying out more fields never moves the running offset backwards.
pub proof fn lemma_end_of_prefix(fields: Seq<LayoutDescriptor>, i: int, j: int)
    requires
        all_wf(fields),
        0 <= i <= j <= fields.len(),
    ensures
        0 <= end_of(fields.take(i)) <= end_of(fields.take(j)),
        j < fields.len() ==> offset_of(fields, j) + fields[j].size == end_of(fields.take(j + 1)),
    decreases j - i,
{
    if j < fields.len() {
        lemma_take_drop_last(fields, j);
    }
    if i < j {
        lemma_end_of_prefix(fields, i, j - 1);
        lemma_take_drop_last(fields, j - 1);
        assert(fields[j - 1].wf());
        lemma_pow2_positive(fields[j - 1].alignment as nat);
        lemma_align_delta_bounds(end_of(fields.take(j - 1)), fields[j - 1].alignment as int);
    } else {
        let pre = fields.take(i);
        assert(all_wf(pre)) by {
            assert forall|k: int| 0 <= k < pre.len() implies #[trigger] pre[k].wf() by {
                assert(pre[k] == fields[k]);
            }
        }
        lemma_end_of_nonneg(pre);
    }
}

proof fn lemma_end_of_nonneg(fields: Seq<LayoutDescriptor>)
    requires
        all_wf(fields),
    ensures
        end_of(fields) >= 0,
    decreases fields.len(),
{
    if fields.len() > 0 {
        let init = fields.drop_last();
        assert(all_wf(init)) by {
            assert forall|i: int| 0 <= i < init.len() implies #[trigger] init[i].wf() by {
                assert(init[i] == fields[i]);
            }
        }
        lemma_end_of_nonneg(init);
        assert(fields[fields.len() - 1].wf());
        lemma_pow2_positive(fields.last().alignment as nat);
        lemma_align_delta_bounds(end_of(fields.drop_last()), fields.last().alignment as int);
    }
}

/// The struct alignment is a power of two, at least each field's alignment.
pub proof fn lemma_struct_alignment(fields: Seq<LayoutDescriptor>, rule: LayoutRule)
    requires
        all_wf(fields),
        rule.wf(),
        fields.len() > 0 || rule.min_struct_alignment > 0,
    ensures
        is_pow2(struct_alignment(fields, rule) as nat),
        forall|i: int| 0 <= i < fields.len() ==> fields[i].alignment <= struct_alignment(fields, rule),
{
    lemma_max_alignment(fields);
    lemma_max_pow2(rule.min_struct_alignment as nat, max_alignment(fields) as nat);
}

proof fn lemma_max_alignment(fields: Seq<LayoutDescriptor>)
    requires
        all_wf(fields),
    ensures
        max_alignment(fields) == 0 || is_pow2(max_alignment(fields) as nat),
        fields.len() > 0 ==> max_alignment(fields) > 0,
        forall|i: int| 0 <= i < fields.len() ==> fields[i].alignment <= max_alignment(fields),
    decreases fields.len(),
{
    if fields.len() > 0 {
        let init = fields.drop_last();
        assert(all_wf(init)) by {
            assert forall|i: int| 0 <= i < init.len() implies #[trigger] init[i].wf() by {
                assert(init[i] == fields[i]);
            }
        }
        lemma_max_alignment(init);
        assert(fields.last().wf());
        lemma_max_pow2(max_alignment(init) as nat, fields.last().alignment as nat);
        lemma_pow2_positive(fields.last().alignment as nat);
        assert forall|i: int| 0 <= i < fields.len() implies fields[i].alignment <= max_alignment(fields) by {
            if i < fields.len() - 1 {
                assert(init[i] == fields[i]);
            }
        }
    }
}

/// Compile the layout of a composite whose fields are described, in
/// declaration order, by `fields`.
pub fn compile_layout(fields: &Vec<LayoutDescriptor>, rule: &LayoutRule) -> (r: CompositeLayout)
    requires
        layout_ok(fields@, *rule),
    ensures
        r.of(fields@, *rule),
        is_pow2(r.alignment as nat),
{
    let n = fields.len();
    let mut offsets: Vec<usize> = Vec::new();
    let mut paddings: Vec<usize> = Vec::new();
    let mut running: usize = 0;
    let mut alignment: usize = rule.min_struct_alignment;
    proof {
        lemma_struct_alignment(fields@, *rule);
        lemma_end_of_prefix(fields@, n as int, n as int);
        assert(fields@.take(n as int) =~= fields@);
        lemma_align_delta_bounds(end_of(fields@), struct_alignment(fields@, *rule));
        assert(fields@.take(0) =~= Seq::<LayoutDescriptor>::empty());
    }
    let mut i: usize = 0;
    while i < n
        invariant
            n == fields@.len(),
            layout_ok(fields@, *rule),
            end_of(fields@) <= usize::MAX,
            0 <= i <= n,
            running == end_of(fields@.take(i as int)),
            alignment == max_spec(rule.min_struct_alignment as int, max_alignment(fields@.take(i as int))),
            offsets@.len() == i,
            paddings@.len() == i,
            forall|j: int| 0 <= j < i ==> offsets@[j] == #[trigger] offset_of(fields@, j),
            forall|j: int| 0 <= j < i ==> paddings@[j] == #[trigger] padding_of(fields@, j),
        decreases n - i,
    {
        let f = fields[i];
        proof {
            lemma_end_of_prefix(fields@, i + 1, n as int);
            lemma_end_of_prefix(fields@, i as int, i as int);
            lemma_take_drop_last(fields@, i as int);
            assert(fields@.take(n as int) =~= fields@);
            assert(fields@[i as int].wf());
            lemma_pow2_positive(f.alignment as nat);
            lemma_align_delta_bounds(running as int, f.alignment as int);
        }
        let pad = align_offset(running, f.alignment);
        let offset = running + pad;
        offsets.push(offset);
        paddings.push(pad);
        running = offset + f.size;
        alignment = max(alignment, f.alignment);
        i = i + 1;
    }
    proof {
        assert(fields@.take(n as int) =~= fields@);
    }
    let end_pad = if rule.pad_struct_end {
        align_offset(running, alignment)
    } else {
        0
    };
    CompositeLayout { offsets, paddings, size: running + end_pad, alignment }
}

/// Offsets grow in declaration order, and no field's bytes overlap a later
/// field or the padding before it; every field lies inside the struct.
pub proof fn lemma_offsets_ordered(fields: Seq<LayoutDescriptor>, rule: LayoutRule, i: int, j: int)
    requires
        layout_ok(fields, rule),
        0 <= i < j < fields.len(),
    ensures
        0 <= offset_of(fields, i) <= offset_of(fields, j),
        offset_of(fields, i) + fields[i].size <= offset_of(fields, j) - padding_of(fields, j),
{
    lemma_end_of_prefix(fields, i, i);
    lemma_end_of_prefix(fields, i + 1, j);
    assert(fields[i].wf());
    assert(fields[j].wf());
    lemma_pow2_positive(fields[i].alignment as nat);
    lemma_pow2_positive(fields[j].alignment as nat);
    lemma_align_delta_bounds(end_of(fields.take(i)), fields[i].alignment as int);
    lemma_align_delta_bounds(end_of(fields.take(j)), fields[j].alignment as int);
}

/// Every field lies inside the struct.
pub proof fn lemma_field_within_struct(fields: Seq<LayoutDescriptor>, rule: LayoutRule, i: int)
    requires
        layout_ok(fields, rule),
        0 <= i < fields.len(),
    ensures
        0 <= offset_of(fields, i),
        offset_of(fields, i) + fields[i].size <= struct_size(fields, rule),
{
    let n = fields.len() as int;
    lemma_end_of_prefix(fields, i, i);
    lemma_end_of_prefix(fields, i + 1, n);
    assert(fields[i].wf());
    lemma_pow2_positive(fields[i].alignment as nat);
    lemma_align_delta_bounds(end_of(fields.take(i)), fields[i].alignment as int);
    assert(fields.take(n) =~= fields);
    lemma_struct_alignment(fields, rule);
    lemma_pow2_positive(struct_alignment(fields, rule) as nat);
    lemma_align_delta_bounds(end_of(fields), struct_alignment(fields, rule));
}

} // verus!
