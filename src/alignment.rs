//! Zero-sized markers for the power-of-two alignments.

use vstd::prelude::*;

verus! {

/// Marker for 1-byte alignment.
#[derive(Debug, Clone, Copy, PartialEq, Eq, Hash)]
pub struct Align1;

/// Marker for 2-byte alignment.
#[derive(Debug, Clone, Copy, PartialEq, Eq, Hash)]
pub struct Align2;

/// Marker for 4-byte alignment.
#[derive(Debug, Clone, Copy, PartialEq, Eq, Hash)]
pub struct Align4;

/// Marker for 8-byte alignment.
#[derive(Debug, Clone, Copy, PartialEq, Eq, Hash)]
pub struct Align8;

/// Marker for 16-byte alignment.
#[derive(Debug, Clone, Copy, PartialEq, Eq, Hash)]
pub struct Align16;

} // verus!
