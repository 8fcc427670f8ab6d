//! The primitive catalog (sizes and alignments of scalars, vectors and
//! matrices, shared by both rule sets) and the mirrors of scalar and vector
//! values.

use vstd::prelude::*;

use crate::bytes::{decode_u32, decode_u64, encode_u32, encode_u64, from_le32, from_le64, le32, le64, push_bytes};
use crate::layout::{
    array_descriptor_spec, array_layout, is_pow2, stride_spec, LayoutDescriptor, LayoutRule,
};
use crate::mirror::Mirror;

verus! {

/// Leaf types of the catalog. Vectors and matrices carry their dimension,
/// 2, 3 or 4; matrices are square and stored as columns.
#[derive(Clone, Copy, Debug, PartialEq, Eq, Structural)]
pub enum Primitive {
    Float,
    Int,
    Uint,
    Bool,
    Double,
    Vec(usize),
    IVec(usize),
    UVec(usize),
    BVec(usize),
    DVec(usize),
    Mat(usize),
    DMat(usize),
}

/// A vector of `n` components, each `width` bytes wide (4 or 8). A single
/// component is a scalar. Three components take the alignment of four.
pub open spec fn vector_descriptor(width: nat, n: nat) -> LayoutDescriptor {
    LayoutDescriptor {
        alignment: (if n == 1 { width } else if n == 2 { 2 * width } else { 4 * width }) as usize,
        size: (n * width) as usize,
    }
}

impl Primitive {
    pub open spec fn wf(&self) -> bool {
        match *self {
            Primitive::Vec(n) | Primitive::IVec(n) | Primitive::UVec(n) | Primitive::BVec(n)
            | Primitive::DVec(n) | Primitive::Mat(n) | Primitive::DMat(n) => 2 <= n <= 4,
            _ => true,
        }
    }

    /// Descriptor of this primitive under `rule`. Only matrices depend on the
    /// rule: each column is laid out as an array element.
    pub open spec fn layout(&self, rule: LayoutRule) -> LayoutDescriptor {
        match *self {
            Primitive::Float | Primitive::Int | Primitive::Uint | Primitive::Bool => vector_descriptor(4, 1),
            Primitive::Double => vector_descriptor(8, 1),
            Primitive::Vec(n) | Primitive::IVec(n) | Primitive::UVec(n) | Primitive::BVec(n) => vector_descriptor(
                4,
                n as nat,
            ),
            Primitive::DVec(n) => vector_descriptor(8, n as nat),
            Primitive::Mat(n) => array_descriptor_spec(vector_descriptor(4, n as nat), n as nat, rule),
            Primitive::DMat(n) => array_descriptor_spec(vector_descriptor(8, n as nat), n as nat, rule),
        }
    }
}

/// Descriptor of a vector of `n` components of `width` bytes.
fn vector_layout(width: usize, n: usize) -> (r: LayoutDescriptor)
    requires
        width == 4 || width == 8,
        1 <= n <= 4,
    ensures
        r == vector_descriptor(width as nat, n as nat),
        r.wf(),
{
    proof {
        reveal_with_fuel(is_pow2, 7);
    }
    let alignment = if n == 1 {
        width
    } else if n == 2 {
        2 * width
    } else {
        4 * width
    };
    LayoutDescriptor { alignment, size: n * width }
}

proof fn lemma_matrix_fits(column: LayoutDescriptor, n: nat, rule: LayoutRule)
    requires
        2 <= n <= 4,
        column == vector_descriptor(4, n) || column == vector_descriptor(8, n),
        rule.is_standard(),
    ensures
        stride_spec(column, rule) <= 32,
        n * stride_spec(column, rule) <= 128,
{
    let a = column.alignment as int;
    let m = rule.array_min_alignment as int;
    assert(m == 0 || m == 16);
    assert(column.size <= 32 && (a == 8 || a == 16 || a == 32));
    assert(column.size <= a) by {
        if column == vector_descriptor(4, n) {
            if n == 2 {} else if n == 3 {} else {}
        } else {
            if n == 2 {} else if n == 3 {} else {}
        }
    }
    assert(stride_spec(column, rule) <= 32) by {
        let am = crate::internal::max_spec(m, a);
        assert(am == 8 || am == 16 || am == 32);
        assert(column.size <= am);
        let z = column.size as int;
        if z == am {
            assert(z % am == 0) by (nonlinear_arith)
                requires z == am, am > 0;
        } else {
            assert(z % am == z) by (nonlinear_arith)
                requires 0 <= z < am;
        }
    }
    assert(n * stride_spec(column, rule) <= 128) by (nonlinear_arith)
        requires
            n <= 4,
            stride_spec(column, rule) <= 32,
            stride_spec(column, rule) >= 0;
}

impl Primitive {
    /// Size and alignment of this primitive under `rule`.
    pub fn descriptor(&self, rule: &LayoutRule) -> (r: LayoutDescriptor)
        requires
            self.wf(),
            rule.is_standard(),
        ensures
            r == self.layout(*rule),
    {
        proof {
            reveal_with_fuel(is_pow2, 7);
        }
        match *self {
            Primitive::Float | Primitive::Int | Primitive::Uint | Primitive::Bool => vector_layout(4, 1),
            Primitive::Double => vector_layout(8, 1),
            Primitive::Vec(n) | Primitive::IVec(n) | Primitive::UVec(n) | Primitive::BVec(n) => vector_layout(4, n),
            Primitive::DVec(n) => vector_layout(8, n),
            Primitive::Mat(n) => {
                let column = vector_layout(4, n);
                proof {
                    lemma_matrix_fits(column, n as nat, *rule);
                }
                array_layout(column, n, *rule)
            },
            Primitive::DMat(n) => {
                let column = vector_layout(8, n);
                proof {
                    lemma_matrix_fits(column, n as nat, *rule);
                }
                array_layout(column, n, *rule)
            },
        }
    }
}

/// Every entry of the catalog, under either standard rule set, has a power of
/// two alignment and a size no larger than its array stride.
pub proof fn lemma_catalog_well_formed(p: Primitive, rule: LayoutRule)
    requires
        p.wf(),
        rule.is_standard(),
    ensures
        p.layout(rule).wf(),
        p.layout(rule).size <= stride_spec(p.layout(rule), rule),
{
    reveal_with_fuel(is_pow2, 7);
}

/// The chunks laid end to end.
pub open spec fn concat(chunks: Seq<Seq<u8>>) -> Seq<u8>
    decreases chunks.len(),
{
    if chunks.len() == 0 {
        Seq::empty()
    } else {
        concat(chunks.drop_last()) + chunks.last()
    }
}

/// Bytes of a vector of 32-bit components.
pub open spec fn words32(ws: Seq<u32>) -> Seq<u8> {
    concat(ws.map_values(|v: u32| le32(v)))
}

/// Bytes of a vector of 64-bit components.
pub open spec fn words64(ws: Seq<u64>) -> Seq<u8> {
    concat(ws.map_values(|v: u64| le64(v)))
}

/// Chunks of equal width `w` sit at multiples of `w`.
proof fn lemma_concat(chunks: Seq<Seq<u8>>, w: int, i: int)
    requires
        w >= 0,
        forall|k: int| 0 <= k < chunks.len() ==> (#[trigger] chunks[k]).len() == w,
        0 <= i < chunks.len(),
    ensures
        concat(chunks).len() == chunks.len() * w,
        i * w + w <= chunks.len() * w,
        concat(chunks).subrange(i * w, i * w + w) == chunks[i],
    decreases chunks.len(),
{
    let n = chunks.len() as int;
    let init = chunks.drop_last();
    assert(forall|k: int| 0 <= k < init.len() ==> (#[trigger] init[k]).len() == w) by {
        assert forall|k: int| 0 <= k < init.len() implies (#[trigger] init[k]).len() == w by {
            assert(init[k] == chunks[k]);
        }
    }
    assert(chunks[n - 1].len() == w);
    assert((n - 1) * w + w == n * w) by (nonlinear_arith);
    if n > 1 {
        lemma_concat(init, w, 0);
    }
    let a = concat(init);
    let full = concat(chunks);
    assert(a.len() == (n - 1) * w);
    if i == n - 1 {
        assert(full.subrange(i * w, i * w + w) =~= chunks[i]);
    } else {
        lemma_concat(init, w, i);
        assert(init[i] == chunks[i]);
        assert(i * w >= 0) by (nonlinear_arith)
            requires i >= 0, w >= 0;
        assert forall|k: int| 0 <= k < w implies #[trigger] full.subrange(i * w, i * w + w)[k]
            == a.subrange(i * w, i * w + w)[k] by {
            assert(full[i * w + k] == a[i * w + k]);
        }
        assert(full.subrange(i * w, i * w + w) =~= a.subrange(i * w, i * w + w));
    }
}

/// Reading component `i` back out of a vector's bytes gives component `i`.
pub proof fn lemma_words32_round_trip(ws: Seq<u32>, i: int)
    requires
        0 <= i < ws.len(),
    ensures
        words32(ws).len() == 4 * ws.len(),
        from_le32(words32(ws).subrange(4 * i, 4 * i + 4)) == ws[i],
{
    let chunks = ws.map_values(|v: u32| le32(v));
    assert forall|k: int| 0 <= k < chunks.len() implies (#[trigger] chunks[k]).len() == 4 by {
        crate::bytes::lemma_le32_round_trip(ws[k]);
    }
    lemma_concat(chunks, 4, i);
    crate::bytes::lemma_le32_round_trip(ws[i]);
}

/// Reading component `i` back out of a double vector's bytes gives component `i`.
pub proof fn lemma_words64_round_trip(ws: Seq<u64>, i: int)
    requires
        0 <= i < ws.len(),
    ensures
        words64(ws).len() == 8 * ws.len(),
        from_le64(words64(ws).subrange(8 * i, 8 * i + 8)) == ws[i],
{
    let chunks = ws.map_values(|v: u64| le64(v));
    assert forall|k: int| 0 <= k < chunks.len() implies (#[trigger] chunks[k]).len() == 8 by {
        crate::bytes::lemma_le64_round_trip(ws[k]);
    }
    lemma_concat(chunks, 8, i);
    crate::bytes::lemma_le64_round_trip(ws[i]);
}

/// Mirror of a 32-bit scalar (float, int or uint), given by its bit pattern.
pub fn scalar(bits: u32) -> (r: Mirror)
    ensures
        r.wf(),
        r.layout() == vector_descriptor(4, 1),
        r.bytes@ == le32(bits),
{
    proof {
        reveal_with_fuel(is_pow2, 3);
    }
    Mirror { alignment: 4, bytes: encode_u32(bits) }
}

/// Bit pattern of the 32-bit scalar held in a 4-byte mirror.
pub fn scalar_value(m: &Mirror) -> (r: u32)
    requires
        m.bytes@.len() == 4,
    ensures
        r == from_le32(m.bytes@),
{
    proof {
        assert(m.bytes@.subrange(0, 4) =~= m.bytes@);
    }
    decode_u32(m.as_bytes(), 0)
}

/// Mirror of a 64-bit scalar, given by its bit pattern.
pub fn double(bits: u64) -> (r: Mirror)
    ensures
        r.wf(),
        r.layout() == vector_descriptor(8, 1),
        r.bytes@ == le64(bits),
{
    proof {
        reveal_with_fuel(is_pow2, 4);
        crate::bytes::lemma_le64_round_trip(bits);
    }
    Mirror { alignment: 8, bytes: encode_u64(bits) }
}

/// Bit pattern of the 64-bit scalar held in an 8-byte mirror.
pub fn double_value(m: &Mirror) -> (r: u64)
    requires
        m.bytes@.len() == 8,
    ensures
        r == from_le64(m.bytes@),
{
    proof {
        assert(m.bytes@.subrange(0, 8) =~= m.bytes@);
    }
    decode_u64(m.as_bytes(), 0)
}

/// Mirror of a vector of 2, 3 or 4 components of 32 bits.
pub fn vector(components: &Vec<u32>) -> (r: Mirror)
    requires
        2 <= components@.len() <= 4,
    ensures
        r.wf(),
        r.layout() == vector_descriptor(4, components@.len()),
        r.bytes@ == words32(components@),
{
    let n = components.len();
    let mut bytes: Vec<u8> = Vec::new();
    let mut i: usize = 0;
    while i < n
        invariant
            n == components@.len(),
            0 <= i <= n,
            bytes@ == words32(components@.take(i as int)),
        decreases n - i,
    {
        let b = encode_u32(components[i]);
        push_bytes(&mut bytes, b.as_slice());
        proof {
            let next = components@.take(i + 1);
            assert(next.drop_last() =~= components@.take(i as int));
            assert(next.map_values(|v: u32| le32(v)).drop_last() =~= next.drop_last().map_values(|v: u32| le32(v)));
        }
        i = i + 1;
    }
    proof {
        assert(components@.take(n as int) =~= components@);
        lemma_words32_round_trip(components@, 0);
    }
    let d = vector_layout(4, n);
    Mirror { alignment: d.alignment, bytes }
}

/// Components of a vector of 32-bit components held in `m`.
pub fn vector_components(m: &Mirror, n: usize) -> (r: Vec<u32>)
    requires
        m.bytes@.len() == 4 * n,
    ensures
        r@.len() == n,
        forall|i: int| 0 <= i < n ==> #[trigger] r@[i] == from_le32(m.bytes@.subrange(4 * i, 4 * i + 4)),
{
    let total = m.bytes.len();
    let mut out: Vec<u32> = Vec::new();
    let mut i: usize = 0;
    while i < n
        invariant
            0 <= i <= n,
            total == m.bytes@.len(),
            total == 4 * n,
            out@.len() == i,
            forall|k: int| 0 <= k < i ==> #[trigger] out@[k] == from_le32(m.bytes@.subrange(4 * k, 4 * k + 4)),
        decreases n - i,
    {
        out.push(decode_u32(m.as_bytes(), 4 * i));
        i = i + 1;
    }
    out
}

/// Mirror of a vector of 2, 3 or 4 components of 64 bits.
pub fn dvector(components: &Vec<u64>) -> (r: Mirror)
    requires
        2 <= components@.len() <= 4,
    ensures
        r.wf(),
        r.layout() == vector_descriptor(8, components@.len()),
        r.bytes@ == words64(components@),
{
    let n = components.len();
    let mut bytes: Vec<u8> = Vec::new();
    let mut i: usize = 0;
    while i < n
        invariant
            n == components@.len(),
            0 <= i <= n,
            bytes@ == words64(components@.take(i as int)),
        decreases n - i,
    {
        let b = encode_u64(components[i]);
        push_bytes(&mut bytes, b.as_slice());
        proof {
            let next = components@.take(i + 1);
            assert(next.drop_last() =~= components@.take(i as int));
            assert(next.map_values(|v: u64| le64(v)).drop_last() =~= next.drop_last().map_values(|v: u64| le64(v)));
        }
        i = i + 1;
    }
    proof {
        assert(components@.take(n as int) =~= components@);
        lemma_words64_round_trip(components@, 0);
    }
    let d = vector_layout(8, n);
    Mirror { alignment: d.alignment, bytes }
}

/// Components of a vector of 64-bit components held in `m`.
pub fn dvector_components(m: &Mirror, n: usize) -> (r: Vec<u64>)
    requires
        m.bytes@.len() == 8 * n,
    ensures
        r@.len() == n,
        forall|i: int| 0 <= i < n ==> #[trigger] r@[i] == from_le64(m.bytes@.subrange(8 * i, 8 * i + 8)),
{
    let total = m.bytes.len();
    let mut out: Vec<u64> = Vec::new();
    let mut i: usize = 0;
    while i < n
        invariant
            0 <= i <= n,
            total == m.bytes@.len(),
            total == 8 * n,
            out@.len() == i,
            forall|k: int| 0 <= k < i ==> #[trigger] out@[k] == from_le64(m.bytes@.subrange(8 * k, 8 * k + 8)),
        decreases n - i,
    {
        out.push(decode_u64(m.as_bytes(), 8 * i));
        i = i + 1;
    }
    out
}

} // verus!
