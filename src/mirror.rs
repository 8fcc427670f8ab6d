//! Device-layout mirrors: the byte image of a value in device layout, with
//! every padding byte zeroed, together with the alignment it advertises.
//! Composites are built leaf-first from the mirrors of their fields.

use vstd::prelude::*;

use crate::bytes::{copy_range, push_bytes, push_zeros, zeros};
use crate::composite::{
    all_wf, compile_layout, end_of, layout_ok, lemma_end_of_prefix, lemma_field_within_struct,
    lemma_struct_alignment, offset_of, padding_of, struct_alignment, struct_size,
};
use crate::internal::{align_delta, lemma_align_delta_bounds};
use crate::layout::{is_pow2, lemma_pow2_positive, LayoutDescriptor, LayoutRule};

verus! {

/// Byte image of a value in device layout.
#[derive(Clone, Debug)]
pub struct Mirror {
    pub alignment: usize,
    pub bytes: Vec<u8>,
}

impl Mirror {
    pub open spec fn wf(&self) -> bool {
        &&& is_pow2(self.alignment as nat)
        &&& self.bytes@.len() <= usize::MAX
    }

    /// Size and alignment of this mirror.
    pub open spec fn layout(&self) -> LayoutDescriptor {
        LayoutDescriptor { alignment: self.alignment, size: self.bytes@.len() as usize }
    }

    pub fn descriptor(&self) -> (r: LayoutDescriptor)
        ensures
            r == self.layout(),
    {
        LayoutDescriptor { alignment: self.alignment, size: self.bytes.len() }
    }

    /// An independent copy of this mirror.
    pub fn duplicate(&self) -> (r: Mirror)
        ensures
            r.alignment == self.alignment,
            r.bytes@ == self.bytes@,
    {
        let mut bytes: Vec<u8> = Vec::new();
        push_bytes(&mut bytes, self.as_bytes());
        Mirror { alignment: self.alignment, bytes }
    }

    /// The bytes of this value as they appear in a device buffer.
    pub fn as_bytes(&self) -> (r: &[u8])
        ensures
            r@ == self.bytes@,
    {
        self.bytes.as_slice()
    }
}

pub open spec fn all_mirrors_wf(vals: Seq<Mirror>) -> bool {
    forall|i: int| 0 <= i < vals.len() ==> #[trigger] vals[i].wf()
}

/// Layout descriptors of a sequence of mirrors.
pub open spec fn layouts(vals: Seq<Mirror>) -> Seq<LayoutDescriptor> {
    vals.map_values(|m: Mirror| m.layout())
}

/// The mirrors of `vals` placed one after another from offset 0, each at the
/// next offset suited to its alignment, with zeroed padding in between.
pub open spec fn image(vals: Seq<Mirror>) -> Seq<u8>
    decreases vals.len(),
{
    if vals.len() == 0 {
        Seq::empty()
    } else {
        let p = image(vals.drop_last());
        p + zeros(align_delta(p.len() as int, vals.last().alignment as int) as nat) + vals.last().bytes@
    }
}

/// Byte image of a composite whose fields have the mirrors `vals`.
pub open spec fn composite_bytes(vals: Seq<Mirror>, rule: LayoutRule) -> Seq<u8> {
    let ls = layouts(vals);
    image(vals) + zeros((struct_size(ls, rule) - end_of(ls)) as nat)
}

/// Bytes of field `i` inside the image `bytes` of a composite laid out from `fields`.
pub open spec fn field_bytes(bytes: Seq<u8>, fields: Seq<LayoutDescriptor>, i: int) -> Seq<u8> {
    bytes.subrange(offset_of(fields, i), offset_of(fields, i) + fields[i].size)
}

proof fn lemma_layouts_wf(vals: Seq<Mirror>)
    requires
        all_mirrors_wf(vals),
    ensures
        all_wf(layouts(vals)),
        layouts(vals).len() == vals.len(),
        forall|i: int| 0 <= i < vals.len() ==> #[trigger] layouts(vals)[i] == vals[i].layout(),
{
    assert forall|i: int| 0 <= i < layouts(vals).len() implies #[trigger] layouts(vals)[i].wf() by {
        assert(vals[i].wf());
    }
}

proof fn lemma_layouts_take(vals: Seq<Mirror>, i: int)
    requires
        0 <= i <= vals.len(),
    ensures
        layouts(vals.take(i)) == layouts(vals).take(i),
{
    assert(layouts(vals.take(i)) =~= layouts(vals).take(i));
}

proof fn lemma_layouts_drop_last(vals: Seq<Mirror>)
    requires
        vals.len() > 0,
    ensures
        layouts(vals.drop_last()) == layouts(vals).drop_last(),
        layouts(vals).last() == vals.last().layout(),
{
    assert(layouts(vals.drop_last()) =~= layouts(vals).drop_last());
}

/// The image of a sequence of mirrors is exactly as long as the running offset
/// that the layout compiler computes for their descriptors.
pub proof fn lemma_image_len(vals: Seq<Mirror>)
    requires
        all_mirrors_wf(vals),
    ensures
        image(vals).len() == end_of(layouts(vals)),
    decreases vals.len(),
{
    if vals.len() > 0 {
        let init = vals.drop_last();
        assert(all_mirrors_wf(init)) by {
            assert forall|i: int| 0 <= i < init.len() implies #[trigger] init[i].wf() by {
                assert(init[i] == vals[i]);
            }
        }
        lemma_image_len(init);
        lemma_layouts_drop_last(vals);
        assert(vals[vals.len() - 1].wf());
        lemma_pow2_positive(vals.last().alignment as nat);
        lemma_align_delta_bounds(image(init).len() as int, vals.last().alignment as int);
    }
}

/// Field `i` of the image sits at the offset the layout compiler gives it.
pub proof fn lemma_image_field(vals: Seq<Mirror>, i: int)
    requires
        all_mirrors_wf(vals),
        0 <= i < vals.len(),
    ensures
        offset_of(layouts(vals), i) + vals[i].bytes@.len() <= image(vals).len(),
        field_bytes(image(vals), layouts(vals), i) == vals[i].bytes@,
    decreases vals.len(),
{
    let n = vals.len() as int;
    let init = vals.drop_last();
    let ls = layouts(vals);
    assert(all_mirrors_wf(init)) by {
        assert forall|k: int| 0 <= k < init.len() implies #[trigger] init[k].wf() by {
            assert(init[k] == vals[k]);
        }
    }
    lemma_layouts_wf(vals);
    lemma_layouts_drop_last(vals);
    lemma_image_len(init);
    lemma_image_len(vals);
    assert(ls.take(n - 1) =~= ls.drop_last());
    assert(vals[n - 1].wf());
    lemma_pow2_positive(vals.last().alignment as nat);
    lemma_align_delta_bounds(image(init).len() as int, vals.last().alignment as int);
    if i == n - 1 {
        assert(field_bytes(image(vals), ls, i) =~= vals[i].bytes@);
    } else {
        lemma_image_field(init, i);
        let li = layouts(init);
        assert(li.take(i) =~= ls.take(i));
        assert(li[i] == ls[i]);
        assert(offset_of(li, i) == offset_of(ls, i));
        assert(vals[i].wf());
        assert(ls[i].size == vals[i].bytes@.len());
        let p = image(init);
        assert(init[i] == vals[i]);
        assert(offset_of(li, i) + vals[i].bytes@.len() <= p.len());
        assert(image(vals) == p + zeros(align_delta(p.len() as int, vals.last().alignment as int) as nat)
            + vals.last().bytes@);
        assert(image(vals).subrange(0, p.len() as int) =~= p);
        let o = offset_of(ls, i);
        lemma_end_of_prefix(ls, i, i);
        assert(ls[i].wf());
        lemma_pow2_positive(ls[i].alignment as nat);
        lemma_align_delta_bounds(end_of(ls.take(i)), ls[i].alignment as int);
        let e = o + ls[i].size;
        assert forall|k: int| 0 <= k < e - o implies #[trigger] image(vals).subrange(o, e)[k] == p.subrange(o, e)[k] by {
            assert(image(vals).subrange(0, p.len() as int)[o + k] == p[o + k]);
        }
        assert(field_bytes(image(vals), ls, i) =~= field_bytes(image(init), li, i));
    }
}

/// Round trip of a composite: reading field `i` back out of the composite's
/// image, at the offset and size the layout compiler gives it, yields exactly
/// the bytes and alignment of the mirror it was built from.
pub proof fn lemma_composite_round_trip(vals: Seq<Mirror>, rule: LayoutRule, i: int)
    requires
        all_mirrors_wf(vals),
        layout_ok(layouts(vals), rule),
        0 <= i < vals.len(),
    ensures
        composite_bytes(vals, rule).len() == struct_size(layouts(vals), rule),
        field_bytes(composite_bytes(vals, rule), layouts(vals), i) == vals[i].bytes@,
        layouts(vals)[i].alignment == vals[i].alignment,
{
    let ls = layouts(vals);
    lemma_layouts_wf(vals);
    lemma_image_field(vals, i);
    lemma_image_len(vals);
    lemma_field_within_struct(ls, rule, i);
    lemma_end_of_prefix(ls, ls.len() as int, ls.len() as int);
    assert(ls.take(ls.len() as int) =~= ls);
    assert(struct_size(ls, rule) >= end_of(ls)) by {
        lemma_struct_alignment(ls, rule);
        lemma_pow2_positive(struct_alignment(ls, rule) as nat);
        lemma_align_delta_bounds(end_of(ls), struct_alignment(ls, rule));
    }
    assert(field_bytes(composite_bytes(vals, rule), ls, i) =~= field_bytes(image(vals), ls, i));
}

/// Descriptors of a sequence of mirrors.
pub fn descriptors(vals: &Vec<Mirror>) -> (r: Vec<LayoutDescriptor>)
    ensures
        r@ == layouts(vals@),
{
    let mut out: Vec<LayoutDescriptor> = Vec::new();
    let mut i: usize = 0;
    while i < vals.len()
        invariant
            0 <= i <= vals@.len(),
            out@ == layouts(vals@).take(i as int),
        decreases vals@.len() - i,
    {
        out.push(vals[i].descriptor());
        i = i + 1;
        assert(out@ =~= layouts(vals@).take(i as int));
    }
    assert(layouts(vals@).take(vals@.len() as int) =~= layouts(vals@));
    out
}

/// Mirror of a composite whose fields, in declaration order, have the mirrors
/// `fields`: each field at its compiled offset, zeroed padding between fields
/// and, where the rule asks for it, after the last one.
pub fn compose(fields: &Vec<Mirror>, rule: &LayoutRule) -> (r: Mirror)
    requires
        all_mirrors_wf(fields@),
        layout_ok(layouts(fields@), *rule),
    ensures
        r.wf(),
        r.alignment == struct_alignment(layouts(fields@), *rule),
        r.bytes@ == composite_bytes(fields@, *rule),
{
    let descs = descriptors(fields);
    let layout = compile_layout(&descs, rule);
    let ghost ls = layouts(fields@);
    let mut out: Vec<u8> = Vec::new();
    let n = fields.len();
    proof {
        lemma_layouts_wf(fields@);
        assert(fields@.take(0) =~= Seq::<Mirror>::empty());
    }
    let mut i: usize = 0;
    while i < n
        invariant
            n == fields@.len(),
            0 <= i <= n,
            all_mirrors_wf(fields@),
            ls == layouts(fields@),
            layout_ok(ls, *rule),
            layout.of(ls, *rule),
            out@ == image(fields@.take(i as int)),
        decreases n - i,
    {
        proof {
            let pre = fields@.take(i as int);
            assert(all_mirrors_wf(pre)) by {
                assert forall|k: int| 0 <= k < pre.len() implies #[trigger] pre[k].wf() by {
                    assert(pre[k] == fields@[k]);
                }
            }
            lemma_image_len(pre);
            lemma_layouts_take(fields@, i as int);
            assert(layout.paddings@[i as int] == padding_of(ls, i as int));
            assert(fields@.take(i + 1).drop_last() =~= pre);
            lemma_layouts_wf(fields@);
        }
        push_zeros(&mut out, layout.paddings[i]);
        push_bytes(&mut out, fields[i].as_bytes());
        i = i + 1;
    }
    proof {
        assert(fields@.take(n as int) =~= fields@);
        lemma_image_len(fields@);
        lemma_layouts_wf(fields@);
        lemma_struct_alignment(ls, *rule);
        lemma_pow2_positive(struct_alignment(ls, *rule) as nat);
        lemma_align_delta_bounds(end_of(ls), struct_alignment(ls, *rule));
    }
    let tail = layout.size - out.len();
    push_zeros(&mut out, tail);
    Mirror { alignment: layout.alignment, bytes: out }
}

/// Reads the fields of a composite back out of its mirror: field `i` gets the
/// bytes at its compiled offset and the alignment of its descriptor.
pub fn decompose(m: &Mirror, fields: &Vec<LayoutDescriptor>, rule: &LayoutRule) -> (r: Vec<Mirror>)
    requires
        layout_ok(fields@, *rule),
        m.bytes@.len() == struct_size(fields@, *rule),
    ensures
        r@.len() == fields@.len(),
        all_mirrors_wf(r@),
        forall|i: int|
            0 <= i < fields@.len() ==> (#[trigger] r@[i]).alignment == fields@[i].alignment
                && r@[i].bytes@ == field_bytes(m.bytes@, fields@, i),
{
    let layout = compile_layout(fields, rule);
    let mut out: Vec<Mirror> = Vec::new();
    let n = fields.len();
    let mut i: usize = 0;
    while i < n
        invariant
            n == fields@.len(),
            0 <= i <= n,
            layout_ok(fields@, *rule),
            layout.of(fields@, *rule),
            m.bytes@.len() == struct_size(fields@, *rule),
            out@.len() == i,
            all_mirrors_wf(out@),
            forall|k: int|
                0 <= k < i ==> (#[trigger] out@[k]).alignment == fields@[k].alignment
                    && out@[k].bytes@ == field_bytes(m.bytes@, fields@, k),
        decreases n - i,
    {
        proof {
            lemma_field_within_struct(fields@, *rule, i as int);
            assert(layout.offsets@[i as int] == offset_of(fields@, i as int));
            assert(fields@[i as int].wf());
        }
        let f = fields[i];
        let start = layout.offsets[i];
        let bytes = copy_range(m.as_bytes(), start, start + f.size);
        out.push(Mirror { alignment: f.alignment, bytes });
        i = i + 1;
    }
    out
}

} // verus!
