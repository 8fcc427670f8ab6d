//! The array/matrix padding adapter: every element, or matrix column, is
//! followed by zero bytes up to the array stride.

use vstd::prelude::*;

use crate::bytes::{copy_range, push_bytes, push_zeros, zeros};
use crate::layout::{
    array_alignment, is_pow2, lemma_max_pow2, lemma_pow2_positive, run_size, stride, stride_spec,
    LayoutDescriptor, LayoutRule,
};
use crate::internal::lemma_align_delta_bounds;
use crate::mirror::Mirror;

verus! {

/// Bytes of `m` followed by zeros up to `stride` bytes.
pub open spec fn padded(m: Mirror, stride: int) -> Seq<u8> {
    m.bytes@ + zeros((stride - m.bytes@.len()) as nat)
}

/// Byte image of an array whose elements have the mirrors `elems`.
pub open spec fn array_image(elems: Seq<Mirror>, stride: int) -> Seq<u8>
    decreases elems.len(),
{
    if elems.len() == 0 {
        Seq::empty()
    } else {
        array_image(elems.drop_last(), stride) + padded(elems.last(), stride)
    }
}

/// Every element is well formed and described by `element`.
pub open spec fn elements_of(elems: Seq<Mirror>, element: LayoutDescriptor) -> bool {
    forall|i: int| 0 <= i < elems.len() ==> (#[trigger] elems[i]).wf() && elems[i].layout() == element
}

proof fn lemma_stride_bounds(element: LayoutDescriptor, rule: LayoutRule)
    requires
        element.wf(),
        rule.wf(),
    ensures
        stride_spec(element, rule) >= element.size,
        is_pow2(array_alignment(element, rule) as nat),
{
    lemma_max_pow2(rule.array_min_alignment as nat, element.alignment as nat);
    lemma_pow2_positive(element.alignment as nat);
    lemma_align_delta_bounds(element.size as int, array_alignment(element, rule));
}

/// An array image is `len * stride` bytes long, and element `i` occupies the
/// bytes from `i * stride`.
pub proof fn lemma_array_image(elems: Seq<Mirror>, element: LayoutDescriptor, s: int, i: int)
    requires
        elements_of(elems, element),
        s >= element.size,
        0 <= i < elems.len(),
    ensures
        array_image(elems, s).len() == elems.len() * s,
        i * s + element.size <= elems.len() * s,
        array_image(elems, s).subrange(i * s, i * s + element.size) == elems[i].bytes@,
    decreases elems.len(),
{
    let n = elems.len() as int;
    let init = elems.drop_last();
    assert(elements_of(init, element)) by {
        assert forall|k: int| 0 <= k < init.len() implies (#[trigger] init[k]).wf() && init[k].layout() == element by {
            assert(init[k] == elems[k]);
        }
    }
    assert(elems[n - 1].wf() && elems[n - 1].layout() == element);
    lemma_array_len(init, element, s);
    assert((n - 1) * s + s == n * s) by (nonlinear_arith);
    let a = array_image(init, s);
    let full = array_image(elems, s);
    if i == n - 1 {
        assert(full.subrange(i * s, i * s + element.size) =~= elems[i].bytes@);
    } else {
        lemma_array_image(init, element, s, i);
        assert(i * s + element.size <= (n - 1) * s);
        assert(elems[i] == init[i]);
        assert((n - 1) * s <= n * s) by (nonlinear_arith)
            requires s >= 0;
        assert forall|k: int| 0 <= k < element.size implies #[trigger] full.subrange(i * s, i * s + element.size)[k]
            == a.subrange(i * s, i * s + element.size)[k] by {
            assert(i * s >= 0) by (nonlinear_arith)
                requires i >= 0, s >= 0;
            assert(full[i * s + k] == a[i * s + k]);
        }
        assert(full.subrange(i * s, i * s + element.size) =~= a.subrange(i * s, i * s + element.size));
    }
}

proof fn lemma_array_len(elems: Seq<Mirror>, element: LayoutDescriptor, s: int)
    requires
        elements_of(elems, element),
        s >= element.size,
    ensures
        array_image(elems, s).len() == elems.len() * s,
    decreases elems.len(),
{
    if elems.len() > 0 {
        let n = elems.len() as int;
        let init = elems.drop_last();
        assert(elements_of(init, element)) by {
            assert forall|k: int| 0 <= k < init.len() implies (#[trigger] init[k]).wf() && init[k].layout() == element by {
                assert(init[k] == elems[k]);
            }
        }
        assert(elems[n - 1].wf() && elems[n - 1].layout() == element);
        lemma_array_len(init, element, s);
        assert((n - 1) * s + s == n * s) by (nonlinear_arith);
    }
}

/// Wrap one array element or matrix column: its bytes followed by zero bytes
/// up to the stride.
pub fn wrap(value: &Mirror, rule: &LayoutRule) -> (r: Mirror)
    requires
        value.wf(),
        rule.wf(),
        stride_spec(value.layout(), *rule) <= usize::MAX,
    ensures
        r.wf(),
        r.alignment == value.alignment,
        r.bytes@ == padded(*value, stride_spec(value.layout(), *rule)),
{
    let d = value.descriptor();
    let s = stride(d, *rule);
    let mut bytes: Vec<u8> = Vec::new();
    push_bytes(&mut bytes, value.as_bytes());
    push_zeros(&mut bytes, s - d.size);
    Mirror { alignment: value.alignment, bytes }
}

/// Recover an element from its padded form: the first `element.size` bytes.
pub fn unwrap(p: &Mirror, element: LayoutDescriptor) -> (r: Mirror)
    requires
        element.wf(),
        element.size <= p.bytes@.len(),
    ensures
        r.wf(),
        r.alignment == element.alignment,
        r.bytes@ == p.bytes@.subrange(0, element.size as int),
{
    Mirror { alignment: element.alignment, bytes: copy_range(p.as_bytes(), 0, element.size) }
}

/// Unwrapping a wrapped element gives back its bytes and alignment.
pub proof fn lemma_wrap_round_trip(m: Mirror, s: int)
    requires
        s >= m.bytes@.len(),
    ensures
        padded(m, s).len() == s,
        padded(m, s).subrange(0, m.bytes@.len() as int) == m.bytes@,
{
    assert(padded(m, s).subrange(0, m.bytes@.len() as int) =~= m.bytes@);
}

/// Mirror of an array (or of a matrix, as the array of its columns) whose
/// elements, all described by `element`, have the mirrors `elements`.
pub fn array(elements: &Vec<Mirror>, element: LayoutDescriptor, rule: &LayoutRule) -> (r: Mirror)
    requires
        element.wf(),
        rule.wf(),
        elements_of(elements@, element),
        stride_spec(element, *rule) <= usize::MAX,
        elements@.len() * stride_spec(element, *rule) <= usize::MAX,
    ensures
        r.wf(),
        r.alignment == array_alignment(element, *rule),
        r.bytes@ == array_image(elements@, stride_spec(element, *rule)),
{
    proof {
        lemma_stride_bounds(element, *rule);
    }
    let ghost s = stride_spec(element, *rule);
    let mut out: Vec<u8> = Vec::new();
    let n = elements.len();
    let mut i: usize = 0;
    while i < n
        invariant
            n == elements@.len(),
            0 <= i <= n,
            element.wf(),
            rule.wf(),
            s == stride_spec(element, *rule),
            s >= element.size,
            s <= usize::MAX,
            elements_of(elements@, element),
            out@ == array_image(elements@.take(i as int), s),
        decreases n - i,
    {
        proof {
            assert(elements@.take(i + 1).drop_last() =~= elements@.take(i as int));
            assert(elements@[i as int].wf() && elements@[i as int].layout() == element);
        }
        let w = wrap(&elements[i], rule);
        push_bytes(&mut out, w.as_bytes());
        i = i + 1;
    }
    proof {
        assert(elements@.take(n as int) =~= elements@);
        if n > 0 {
            lemma_array_len(elements@, element, s);
        }
    }
    Mirror { alignment: crate::internal::max(rule.array_min_alignment, element.alignment), bytes: out }
}

/// Reads the `len` elements of an array back out of its mirror: element `i`
/// gets `element.size` bytes from `i * stride` and the element's alignment.
pub fn array_elements(m: &Mirror, element: LayoutDescriptor, len: usize, rule: &LayoutRule) -> (r: Vec<Mirror>)
    requires
        element.wf(),
        rule.wf(),
        stride_spec(element, *rule) <= usize::MAX,
        m.bytes@.len() == len * stride_spec(element, *rule),
    ensures
        r@.len() == len,
        forall|i: int|
            0 <= i < len ==> (#[trigger] r@[i]).wf() && r@[i].alignment == element.alignment
                && r@[i].bytes@ == m.bytes@.subrange(
                i * stride_spec(element, *rule),
                i * stride_spec(element, *rule) + element.size,
            ),
{
    proof {
        lemma_stride_bounds(element, *rule);
    }
    let s = stride(element, *rule);
    let total = m.bytes.len();
    let mut out: Vec<Mirror> = Vec::new();
    let mut at: usize = 0;
    let mut i: usize = 0;
    while i < len
        invariant
            0 <= i <= len,
            element.wf(),
            s == stride_spec(element, *rule),
            s >= element.size,
            m.bytes@.len() == len * s,
            total == m.bytes@.len(),
            at == i * s,
            out@.len() == i,
            forall|k: int|
                0 <= k < i ==> (#[trigger] out@[k]).wf() && out@[k].alignment == element.alignment
                    && out@[k].bytes@ == m.bytes@.subrange(k * s, k * s + element.size),
        decreases len - i,
    {
        proof {
            assert((i + 1) * s <= len * s) by (nonlinear_arith)
                requires i + 1 <= len, s >= 0;
            assert((i + 1) * s == i * s + s) by (nonlinear_arith);
        }
        let bytes = copy_range(m.as_bytes(), at, at + element.size);
        out.push(Mirror { alignment: element.alignment, bytes });
        at = at + s;
        i = i + 1;
    }
    out
}

/// Round trip of an array: reading element `i` back out of the array's
/// image, `element.size` bytes from `i * stride`, yields the bytes of the
/// element it was built from, for every element and every length.
pub proof fn lemma_array_round_trip(elems: Seq<Mirror>, element: LayoutDescriptor, rule: LayoutRule)
    requires
        element.wf(),
        rule.wf(),
        elements_of(elems, element),
    ensures
        array_image(elems, stride_spec(element, rule)).len() == elems.len() * stride_spec(element, rule),
        forall|i: int|
            0 <= i < elems.len() ==> #[trigger] array_image(elems, stride_spec(element, rule)).subrange(
                i * stride_spec(element, rule),
                i * stride_spec(element, rule) + element.size,
            ) == elems[i].bytes@,
{
    let s = stride_spec(element, rule);
    lemma_stride_bounds(element, rule);
    lemma_array_len(elems, element, s);
    assert forall|i: int| 0 <= i < elems.len() implies #[trigger] array_image(elems, s).subrange(
        i * s,
        i * s + element.size,
    ) == elems[i].bytes@ by {
        lemma_array_image(elems, element, s, i);
    }
}

/// Under the rule that rounds array elements to 16 bytes, an array of
/// 12-byte, 16-aligned vectors has stride 16 whatever its length: element
/// `i` fills bytes `16 * i .. 16 * i + 12`, and the next 4 bytes are zero.
pub proof fn lemma_vec3_array_stride(elems: Seq<Mirror>, rule: LayoutRule, i: int)
    requires
        rule.wf(),
        rule.array_min_alignment == 16,
        elements_of(elems, LayoutDescriptor { alignment: 16, size: 12 }),
        0 <= i < elems.len(),
    ensures
        stride_spec(LayoutDescriptor { alignment: 16, size: 12 }, rule) == 16,
        array_image(elems, 16).len() == 16 * elems.len(),
        array_image(elems, 16).subrange(16 * i, 16 * i + 12) == elems[i].bytes@,
        array_image(elems, 16).subrange(16 * i + 12, 16 * i + 16) == zeros(4),
    decreases elems.len(),
{
    let element = LayoutDescriptor { alignment: 16, size: 12 };
    assert(stride_spec(element, rule) == 16) by {
        assert(12int % 16int == 12) by (nonlinear_arith);
    }
    lemma_array_image(elems, element, 16, i);
    let n = elems.len() as int;
    let init = elems.drop_last();
    assert(elements_of(init, element)) by {
        assert forall|k: int| 0 <= k < init.len() implies (#[trigger] init[k]).wf() && init[k].layout() == element by {
            assert(init[k] == elems[k]);
        }
    }
    assert(elems[n - 1].wf() && elems[n - 1].layout() == element);
    lemma_array_len(init, element, 16);
    let full = array_image(elems, 16);
    let a = array_image(init, 16);
    if i == n - 1 {
        assert(full.subrange(16 * i + 12, 16 * i + 16) =~= zeros(4));
    } else {
        lemma_vec3_array_stride(init, rule, i);
        assert forall|k: int| 0 <= k < 4 implies #[trigger] full.subrange(16 * i + 12, 16 * i + 16)[k]
            == a.subrange(16 * i + 12, 16 * i + 16)[k] by {
            assert(full[16 * i + 12 + k] == a[16 * i + 12 + k]);
        }
        assert(full.subrange(16 * i + 12, 16 * i + 16) =~= a.subrange(16 * i + 12, 16 * i + 16));
    }
}

/// Byte image of a contiguous run of elements as a writer lays it out: each
/// element but the last padded to the stride, the last one bare.
pub open spec fn run_image(elems: Seq<Mirror>, stride: int) -> Seq<u8> {
    if elems.len() == 0 {
        Seq::empty()
    } else {
        array_image(elems.drop_last(), stride) + elems.last().bytes@
    }
}

/// A run is `run_size` bytes long, and element `i` occupies the bytes from
/// `i * stride`.
pub proof fn lemma_run_image(elems: Seq<Mirror>, element: LayoutDescriptor, rule: LayoutRule)
    requires
        element.wf(),
        rule.wf(),
        elements_of(elems, element),
    ensures
        run_image(elems, stride_spec(element, rule)).len() == run_size(element, elems.len(), rule),
        forall|i: int|
            0 <= i < elems.len() ==> #[trigger] run_image(elems, stride_spec(element, rule)).subrange(
                i * stride_spec(element, rule),
                i * stride_spec(element, rule) + element.size,
            ) == elems[i].bytes@,
{
    let s = stride_spec(element, rule);
    lemma_stride_bounds(element, rule);
    if elems.len() > 0 {
        let n = elems.len() as int;
        let init = elems.drop_last();
        assert(elements_of(init, element)) by {
            assert forall|k: int| 0 <= k < init.len() implies (#[trigger] init[k]).wf() && init[k].layout() == element by {
                assert(init[k] == elems[k]);
            }
        }
        assert(elems[n - 1].wf() && elems[n - 1].layout() == element);
        lemma_array_round_trip(init, element, rule);
        let a = array_image(init, s);
        let full = run_image(elems, s);
        assert forall|i: int| 0 <= i < elems.len() implies #[trigger] full.subrange(i * s, i * s + element.size)
            == elems[i].bytes@ by {
            if i == n - 1 {
                assert(full.subrange(i * s, i * s + element.size) =~= elems[i].bytes@);
            } else {
                assert(init[i] == elems[i]);
                assert(a.subrange(i * s, i * s + element.size) == init[i].bytes@);
                lemma_array_image(init, element, s, i);
                assert(i * s >= 0) by (nonlinear_arith)
                    requires i >= 0, s >= 0;
                assert forall|k: int| 0 <= k < element.size implies #[trigger] full.subrange(i * s, i * s + element.size)[k]
                    == a.subrange(i * s, i * s + element.size)[k] by {
                    assert(full[i * s + k] == a[i * s + k]);
                }
                assert(full.subrange(i * s, i * s + element.size) =~= a.subrange(i * s, i * s + element.size));
            }
        }
    }
}

/// Mirror of a contiguous run of elements, all described by `element`: the
/// elements at multiples of the stride, zeroed gaps between them, nothing
/// after the last, under the element's own alignment.
pub fn run(elements: &Vec<Mirror>, element: LayoutDescriptor, rule: &LayoutRule) -> (r: Mirror)
    requires
        element.wf(),
        rule.wf(),
        elements_of(elements@, element),
        stride_spec(element, *rule) <= usize::MAX,
        run_size(element, elements@.len(), *rule) <= usize::MAX,
    ensures
        r.wf(),
        r.alignment == element.alignment,
        r.bytes@ == run_image(elements@, stride_spec(element, *rule)),
        r.bytes@.len() == run_size(element, elements@.len(), *rule),
{
    proof {
        lemma_stride_bounds(element, *rule);
        lemma_run_image(elements@, element, *rule);
    }
    let ghost s = stride_spec(element, *rule);
    let mut out: Vec<u8> = Vec::new();
    let n = elements.len();
    if n == 0 {
        return Mirror { alignment: element.alignment, bytes: out };
    }
    let mut i: usize = 0;
    while i < n - 1
        invariant
            n == elements@.len(),
            n > 0,
            0 <= i <= n - 1,
            element.wf(),
            rule.wf(),
            s == stride_spec(element, *rule),
            s >= element.size,
            s <= usize::MAX,
            elements_of(elements@, element),
            out@ == array_image(elements@.take(i as int), s),
        decreases n - 1 - i,
    {
        proof {
            assert(elements@.take(i + 1).drop_last() =~= elements@.take(i as int));
            assert(elements@[i as int].wf() && elements@[i as int].layout() == element);
        }
        let w = wrap(&elements[i], rule);
        push_bytes(&mut out, w.as_bytes());
        i = i + 1;
    }
    proof {
        assert(elements@.take(n - 1) =~= elements@.drop_last());
    }
    push_bytes(&mut out, elements[n - 1].as_bytes());
    Mirror { alignment: element.alignment, bytes: out }
}

/// The std140 mirror of an array: elements padded to a stride rounded up to
/// 16 bytes, the array aligned to at least 16.
pub fn as_std140(elements: &Vec<Mirror>, element: LayoutDescriptor) -> (r: Mirror)
    requires
        element.wf(),
        elements_of(elements@, element),
        stride_spec(element, LayoutRule::std140_spec()) <= usize::MAX,
        elements@.len() * stride_spec(element, LayoutRule::std140_spec()) <= usize::MAX,
    ensures
        r.wf(),
        r.alignment == array_alignment(element, LayoutRule::std140_spec()),
        r.bytes@ == array_image(elements@, stride_spec(element, LayoutRule::std140_spec())),
{
    array(elements, element, &LayoutRule::std140())
}

/// The `len` elements of an array read back from its std140 mirror.
pub fn from_std140(m: &Mirror, element: LayoutDescriptor, len: usize) -> (r: Vec<Mirror>)
    requires
        element.wf(),
        stride_spec(element, LayoutRule::std140_spec()) <= usize::MAX,
        m.bytes@.len() == len * stride_spec(element, LayoutRule::std140_spec()),
    ensures
        r@.len() == len,
        forall|i: int|
            0 <= i < len ==> (#[trigger] r@[i]).wf() && r@[i].alignment == element.alignment
                && r@[i].bytes@ == m.bytes@.subrange(
                i * stride_spec(element, LayoutRule::std140_spec()),
                i * stride_spec(element, LayoutRule::std140_spec()) + element.size,
            ),
{
    array_elements(m, element, len, &LayoutRule::std140())
}

/// The std430 mirror of an array: elements padded to their own alignment.
pub fn as_std430(elements: &Vec<Mirror>, element: LayoutDescriptor) -> (r: Mirror)
    requires
        element.wf(),
        elements_of(elements@, element),
        stride_spec(element, LayoutRule::std430_spec()) <= usize::MAX,
        elements@.len() * stride_spec(element, LayoutRule::std430_spec()) <= usize::MAX,
    ensures
        r.wf(),
        r.alignment == array_alignment(element, LayoutRule::std430_spec()),
        r.bytes@ == array_image(elements@, stride_spec(element, LayoutRule::std430_spec())),
{
    array(elements, element, &LayoutRule::std430())
}

/// The `len` elements of an array read back from its std430 mirror.
pub fn from_std430(m: &Mirror, element: LayoutDescriptor, len: usize) -> (r: Vec<Mirror>)
    requires
        element.wf(),
        stride_spec(element, LayoutRule::std430_spec()) <= usize::MAX,
        m.bytes@.len() == len * stride_spec(element, LayoutRule::std430_spec()),
    ensures
        r@.len() == len,
        forall|i: int|
            0 <= i < len ==> (#[trigger] r@[i]).wf() && r@[i].alignment == element.alignment
                && r@[i].bytes@ == m.bytes@.subrange(
                i * stride_spec(element, LayoutRule::std430_spec()),
                i * stride_spec(element, LayoutRule::std430_spec()) + element.size,
            ),
{
    array_elements(m, element, len, &LayoutRule::std430())
}

} // verus!
