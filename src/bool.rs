//! The device boolean: 32 bits wide, where the host's is 8.

use vstd::prelude::*;

use crate::bytes::{decode_u32, encode_u32, le32, from_le32, lemma_le32_round_trip};
use crate::layout::is_pow2;
use crate::mirror::Mirror;

verus! {

/// A boolean as the device stores it: 1 for true, 0 for false; any non-zero
/// pattern reads back as true.
#[derive(Clone, Copy, Debug, PartialEq, Eq, Structural)]
pub struct Bool(pub u32);

impl Bool {
    /// The device encoding of `b`.
    pub fn as_device(b: bool) -> (r: u32)
        ensures
            r == (if b { 1u32 } else { 0u32 }),
    {
        if b {
            1
        } else {
            0
        }
    }

    /// The host value of a device boolean: any non-zero pattern is true.
    pub fn from_device(v: u32) -> (r: bool)
        ensures
            r == (v != 0),
    {
        v != 0
    }

    /// Mirror of this boolean: its 32-bit pattern, 4-byte aligned.
    pub fn to_mirror(&self) -> (r: Mirror)
        ensures
            r.wf(),
            r.alignment == 4,
            r.bytes@ == le32(self.0),
    {
        proof {
            reveal_with_fuel(is_pow2, 3);
        }
        Mirror { alignment: 4, bytes: encode_u32(self.0) }
    }

    /// The boolean stored in a 4-byte mirror.
    pub fn from_mirror(m: &Mirror) -> (r: Bool)
        requires
            m.bytes@.len() == 4,
        ensures
            r.0 == from_le32(m.bytes@),
    {
        let v = decode_u32(m.as_bytes(), 0);
        proof {
            assert(m.bytes@.subrange(0, 4) =~= m.bytes@);
        }
        Bool(v)
    }
}

/// A host boolean survives the trip through its device mirror.
pub proof fn lemma_bool_round_trip(b: bool)
    ensures
        (from_le32(le32((if b { 1u32 } else { 0u32 }))) != 0) == b,
{
    lemma_le32_round_trip(if b { 1u32 } else { 0u32 });
}

impl From<bool> for Bool {
    fn from(v: bool) -> (r: Bool)
        ensures
            r == Bool(if v { 1u32 } else { 0u32 }),
    {
        Bool(Bool::as_device(v))
    }
}

impl vstd::std_specs::convert::FromSpecImpl<bool> for Bool {
    open spec fn obeys_from_spec() -> bool {
        true
    }

    open spec fn from_spec(v: bool) -> Bool {
        Bool(if v { 1u32 } else { 0u32 })
    }
}

impl From<Bool> for bool {
    fn from(v: Bool) -> (r: bool)
        ensures
            r == (v.0 != 0),
    {
        Bool::from_device(v.0)
    }
}

impl vstd::std_specs::convert::FromSpecImpl<Bool> for bool {
    open spec fn obeys_from_spec() -> bool {
        true
    }

    open spec fn from_spec(v: Bool) -> bool {
        v.0 != 0
    }
}

} // verus!
