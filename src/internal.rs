//! Alignment arithmetic shared by the layout compiler, the writer and the sizer.

use vstd::prelude::*;

verus! {

/// Number of bytes needed to move `offset` up to the next multiple of `alignment`.
pub open spec fn align_delta(offset: int, alignment: int) -> int {
    if offset % alignment == 0 {
        0
    } else {
        alignment - offset % alignment
    }
}

/// `offset` rounded up to a multiple of `alignment`.
pub open spec fn align_up(offset: int, alignment: int) -> int {
    offset + align_delta(offset, alignment)
}

pub open spec fn max_spec(a: int, b: int) -> int {
    if a > b {
        a
    } else {
        b
    }
}

/// The padding inserted before a value of the given alignment is smaller than
/// that alignment, and rounding up never moves backwards.
pub proof fn lemma_align_delta_bounds(offset: int, alignment: int)
    requires
        offset >= 0,
        alignment > 0,
    ensures
        0 <= align_delta(offset, alignment) < alignment,
        align_up(offset, alignment) >= offset,
        align_up(offset, alignment) % alignment == 0,
{
    let q = offset / alignment;
    let r = offset % alignment;
    vstd::arithmetic::div_mod::lemma_fundamental_div_mod(offset, alignment);
    if r != 0 {
        assert(align_up(offset, alignment) == (q + 1) * alignment) by (nonlinear_arith)
            requires
                offset == alignment * q + r,
                align_up(offset, alignment) == offset + (alignment - r);
        vstd::arithmetic::div_mod::lemma_mod_multiples_basic(q + 1, alignment);
    }
}

/// Align the given struct offset up to the given alignment.
pub fn align_offset(offset: usize, alignment: usize) -> (r: usize)
    requires
        alignment > 0,
    ensures
        r == align_delta(offset as int, alignment as int),
        r < alignment,
{
    if offset % alignment == 0 {
        0
    } else {
        alignment - offset % alignment
    }
}

/// Max of two `usize`.
pub fn max(a: usize, b: usize) -> (r: usize)
    ensures
        r == max_spec(a as int, b as int),
{
    if a > b {
        a
    } else {
        b
    }
}

/// Padding placed after the last field of a struct: up to `alignment` when
/// `do_pad` holds, none otherwise.
pub fn pad_at_end(size: usize, alignment: usize, do_pad: bool) -> (r: usize)
    requires
        do_pad ==> alignment > 0,
    ensures
        r == (if do_pad { align_delta(size as int, alignment as int) } else { 0 }),
        do_pad ==> (size + r) % (alignment as int) == 0 && r < alignment,
{
    if do_pad {
        proof {
            lemma_align_delta_bounds(size as int, alignment as int);
        }
        align_offset(size, alignment)
    } else {
        0
    }
}

} // verus!
