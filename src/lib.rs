//! Byte-exact GPU buffer layouts for the `std140` and `std430` rule sets.
//!
//! Layout descriptors and rule sets drive a composite layout compiler; values
//! are turned leaf-first into device-layout mirrors (explicit byte images with
//! every padding byte zeroed) that a `Writer` appends to a buffer and a `Sizer`
//! measures without emitting anything.

pub mod internal;
pub mod layout;
pub mod composite;
pub mod bytes;
pub mod mirror;
pub mod writer;
pub mod arrays;
pub mod bool;
pub mod primitives;
pub mod dynamic_uniform;
pub mod alignment;

pub use crate::alignment::{Align1, Align16, Align2, Align4, Align8};
pub use crate::bool::Bool;
pub use crate::composite::{compile_layout, CompositeLayout};
pub use crate::dynamic_uniform::{DynamicUniform, DynamicUniformStd140};
pub use crate::internal::{align_offset, max, pad_at_end};
pub use crate::layout::{LayoutDescriptor, LayoutRule};
pub use crate::mirror::Mirror;
pub use crate::primitives::Primitive;
pub use crate::writer::{Sizer, WriteError, Writer};
