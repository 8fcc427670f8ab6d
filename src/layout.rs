//! Layout descriptors, the two rule sets, and the struct layout compiler.

use vstd::prelude::*;

use crate::internal::{align_offset, align_up, max, max_spec};

verus! {

/// Whether `n` is a power of two.
pub open spec fn is_pow2(n: nat) -> bool
    decreases n,
{
    if n == 0 {
        false
    } else if n == 1 {
        true
    } else {
        n % 2 == 0 && is_pow2(n / 2)
    }
}

/// Size and alignment of a value in device layout.
#[derive(Clone, Copy, Debug, PartialEq, Eq, Structural)]
pub struct LayoutDescriptor {
    pub alignment: usize,
    pub size: usize,
}

impl LayoutDescriptor {
    pub open spec fn wf(&self) -> bool {
        is_pow2(self.alignment as nat)
    }
}

/// One of the standard buffer layout conventions.
///
/// `min_struct_alignment` and `array_min_alignment` are 16 or 0; a zero
/// array minimum lets each element keep its own alignment.
#[derive(Clone, Copy, Debug, PartialEq, Eq, Structural)]
pub struct LayoutRule {
    pub min_struct_alignment: usize,
    pub array_min_alignment: usize,
    pub pad_struct_end: bool,
}

impl LayoutRule {
    pub open spec fn wf(&self) -> bool {
        &&& (self.min_struct_alignment == 0 || is_pow2(self.min_struct_alignment as nat))
        &&& (self.array_min_alignment == 0 || is_pow2(self.array_min_alignment as nat))
    }

    /// The rule set that rounds structs and array elements up to 16 bytes.
    pub open spec fn std140_spec() -> LayoutRule {
        LayoutRule { min_struct_alignment: 16, array_min_alignment: 16, pad_struct_end: true }
    }

    /// The minimally packed rule set.
    pub open spec fn std430_spec() -> LayoutRule {
        LayoutRule { min_struct_alignment: 0, array_min_alignment: 0, pad_struct_end: false }
    }

    /// One of the two standard rule sets.
    pub open spec fn is_standard(&self) -> bool {
        ||| *self == LayoutRule::std140_spec()
        ||| *self == LayoutRule::std430_spec()
    }

    /// The rule set that rounds structs and array elements up to 16 bytes.
    pub fn std140() -> (r: LayoutRule)
        ensures
            r == LayoutRule::std140_spec(),
            r.wf(),
    {
        proof {
            reveal_with_fuel(is_pow2, 5);
        }
        LayoutRule { min_struct_alignment: 16, array_min_alignment: 16, pad_struct_end: true }
    }

    /// The minimally packed rule set.
    pub fn std430() -> (r: LayoutRule)
        ensures
            r == LayoutRule::std430_spec(),
            r.wf(),
    {
        LayoutRule { min_struct_alignment: 0, array_min_alignment: 0, pad_struct_end: false }
    }
}

/// The larger of two powers of two (or zero) is a power of two (or zero).
pub proof fn lemma_max_pow2(a: nat, b: nat)
    requires
        a == 0 || is_pow2(a),
        b == 0 || is_pow2(b),
    ensures
        max_spec(a as int, b as int) == 0 || is_pow2(max_spec(a as int, b as int) as nat),
        a > 0 || b > 0 ==> max_spec(a as int, b as int) > 0,
{
}

pub proof fn lemma_pow2_positive(n: nat)
    requires
        is_pow2(n),
    ensures
        n > 0,
{
}

/// Alignment of an array whose elements are described by `element`.
pub open spec fn array_alignment(element: LayoutDescriptor, rule: LayoutRule) -> int {
    max_spec(rule.array_min_alignment as int, element.alignment as int)
}

/// Distance between consecutive array elements described by `element`.
pub open spec fn stride_spec(element: LayoutDescriptor, rule: LayoutRule) -> int {
    align_up(element.size as int, array_alignment(element, rule))
}

/// Stride of an array or matrix-column element.
pub fn stride(element: LayoutDescriptor, rule: LayoutRule) -> (r: usize)
    requires
        element.wf(),
        stride_spec(element, rule) <= usize::MAX,
    ensures
        r == stride_spec(element, rule),
        r >= element.size,
{
    proof {
        lemma_pow2_positive(element.alignment as nat);
    }
    let a = max(rule.array_min_alignment, element.alignment);
    element.size + align_offset(element.size, a)
}

/// Descriptor of an array of `len` elements described by `element`.
pub open spec fn array_descriptor_spec(element: LayoutDescriptor, len: nat, rule: LayoutRule) -> LayoutDescriptor {
    LayoutDescriptor {
        alignment: array_alignment(element, rule) as usize,
        size: (len * stride_spec(element, rule)) as usize,
    }
}

/// Layout of a fixed-size array; a matrix is an array of its columns.
pub fn array_layout(element: LayoutDescriptor, len: usize, rule: LayoutRule) -> (r: LayoutDescriptor)
    requires
        element.wf(),
        rule.wf(),
        len * stride_spec(element, rule) <= usize::MAX,
        stride_spec(element, rule) <= usize::MAX,
    ensures
        r == array_descriptor_spec(element, len as nat, rule),
        r.wf(),
{
    proof {
        lemma_max_pow2(rule.array_min_alignment as nat, element.alignment as nat);
        lemma_pow2_positive(element.alignment as nat);
    }
    let s = stride(element, rule);
    LayoutDescriptor { alignment: max(rule.array_min_alignment, element.alignment), size: len * s }
}

/// Length of a run of `len` elements described by `element`, written as an
/// array: each element after the first starts one stride after the previous
/// one, and nothing follows the last.
pub open spec fn run_size(element: LayoutDescriptor, len: nat, rule: LayoutRule) -> int {
    if len == 0 {
        0
    } else {
        (len - 1) * stride_spec(element, rule) + element.size
    }
}

/// Descriptor of a run of `len` elements: the element's own alignment and
/// the run's length.
pub open spec fn run_descriptor_spec(element: LayoutDescriptor, len: nat, rule: LayoutRule) -> LayoutDescriptor {
    LayoutDescriptor { alignment: element.alignment, size: run_size(element, len, rule) as usize }
}

/// Layout of a contiguous run of `len` elements, as a writer lays it out.
pub fn run_layout(element: LayoutDescriptor, len: usize, rule: LayoutRule) -> (r: LayoutDescriptor)
    requires
        element.wf(),
        rule.wf(),
        stride_spec(element, rule) <= usize::MAX,
        run_size(element, len as nat, rule) <= usize::MAX,
    ensures
        r == run_descriptor_spec(element, len as nat, rule),
        r.wf(),
{
    if len == 0 {
        return LayoutDescriptor { alignment: element.alignment, size: 0 };
    }
    let s = stride(element, rule);
    proof {
        assert((len - 1) * s <= (len - 1) * s + element.size);
    }
    LayoutDescriptor { alignment: element.alignment, size: (len - 1) * s + element.size }
}

} // verus!
