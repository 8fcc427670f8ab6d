//! The dynamic-offset adapter: raises a value's advertised alignment to at
//! least 256 bytes, so that independently offsettable regions of one buffer
//! start where every device accepts a dynamic offset.

use vstd::prelude::*;

use crate::internal::{max, max_spec};
use crate::layout::{is_pow2, lemma_max_pow2};
use crate::mirror::Mirror;

verus! {

/// Minimum alignment of a dynamically offset uniform region.
pub const DYNAMIC_UNIFORM_ALIGNMENT: usize = 256;

/// Wrapper that aligns the inner value to at least 256 bytes.
pub struct DynamicUniform(pub Mirror);

/// Device form of a [`DynamicUniform`]: the inner bytes unchanged, the
/// alignment raised to at least 256.
pub struct DynamicUniformStd140 {
    inner: Mirror,
}

impl DynamicUniform {
    pub fn as_std140(&self) -> (r: DynamicUniformStd140)
        ensures
            r.inner().alignment == self.0.alignment,
            r.inner().bytes@ == self.0.bytes@,
    {
        DynamicUniformStd140 { inner: self.0.duplicate() }
    }

    pub fn from_std140(value: DynamicUniformStd140) -> (r: DynamicUniform)
        ensures
            r.0 == value.inner(),
    {
        DynamicUniform(value.inner)
    }
}

impl DynamicUniformStd140 {
    /// The wrapped value.
    pub closed spec fn inner(&self) -> Mirror {
        self.inner
    }

    /// Advertised alignment: at least 256, and at least the inner value's.
    pub fn alignment(&self) -> (r: usize)
        ensures
            r == max_spec(256, self.inner().alignment as int),
    {
        max(DYNAMIC_UNIFORM_ALIGNMENT, self.inner.alignment)
    }

    /// Size in bytes, that of the inner value.
    pub fn size(&self) -> (r: usize)
        ensures
            r == self.inner().bytes@.len(),
    {
        self.inner.bytes.len()
    }

    /// Mirror of the wrapped value: the inner bytes, unchanged, under the
    /// raised alignment.
    pub fn to_mirror(&self) -> (r: Mirror)
        requires
            self.inner().wf(),
        ensures
            r.wf(),
            r.alignment == max_spec(256, self.inner().alignment as int),
            r.bytes@ == self.inner().bytes@,
    {
        proof {
            reveal_with_fuel(is_pow2, 10);
            lemma_max_pow2(256, self.inner.alignment as nat);
        }
        let copy = self.inner.duplicate();
        Mirror { alignment: max(DYNAMIC_UNIFORM_ALIGNMENT, copy.alignment), bytes: copy.bytes }
    }
}

} // verus!
