use crevice::arrays::{array, array_elements, as_std140, as_std430, from_std140, from_std430, unwrap, wrap};
use crevice::mirror::{compose, decompose, descriptors};
use crevice::primitives::{
    double, double_value, dvector, dvector_components, scalar, scalar_value, vector, vector_components,
};
use crevice::{Bool, LayoutRule, Mirror, Primitive};

fn vec3(x: f32, y: f32, z: f32) -> Mirror {
    vector(&vec![x.to_bits(), y.to_bits(), z.to_bits()])
}

fn read_vec3(m: &Mirror) -> [f32; 3] {
    let c = vector_components(m, 3);
    [f32::from_bits(c[0]), f32::from_bits(c[1]), f32::from_bits(c[2])]
}

fn mat3(columns: [[f32; 3]; 3], rule: &LayoutRule) -> Mirror {
    let cols: Vec<Mirror> = columns.iter().map(|c| vec3(c[0], c[1], c[2])).collect();
    array(&cols, cols[0].descriptor(), rule)
}

fn read_mat3(m: &Mirror, rule: &LayoutRule) -> [[f32; 3]; 3] {
    let column = Primitive::Vec(3).descriptor(rule);
    let cols = array_elements(m, column, 3, rule);
    [read_vec3(&cols[0]), read_vec3(&cols[1]), read_vec3(&cols[2])]
}

#[test]
fn lib_mat3() {
    let rule = LayoutRule::std140();
    let value = [[1.0, 2.0, 3.0], [4.0, 5.0, 6.0], [7.0, 8.0, 9.0]];
    let m = mat3(value, &rule);
    assert_eq!(m.bytes.len(), 48);
    assert_eq!(m.alignment, 16);
    let fields = vec![m];
    let whole = compose(&fields, &rule);
    let back = decompose(&whole, &descriptors(&fields), &rule);
    assert_eq!(read_mat3(&back[0], &rule), value);
}

#[test]
fn std140_there_and_back_again() {
    let rule = LayoutRule::std140();
    let view = [[1.0, 0.0, 0.0], [0.0, 1.0, 0.0], [0.0, 0.0, 1.0]];
    let origin = [0.0f32, 1.0, 2.0];
    let fields = vec![mat3(view, &rule), vec3(origin[0], origin[1], origin[2])];
    let whole = compose(&fields, &rule);
    assert_eq!(whole.bytes.len(), 64);
    let back = decompose(&whole, &descriptors(&fields), &rule);
    assert_eq!(read_mat3(&back[0], &rule), view);
    assert_eq!(read_vec3(&back[1]), origin);
}

#[test]
fn test_there_and_back_again() {
    let rule = LayoutRule::std430();
    let view = [[1.0, 0.0, 0.0], [0.0, 1.0, 0.0], [0.0, 0.0, 1.0]];
    let origin = [0.0f32, 1.0, 2.0];
    let fields = vec![mat3(view, &rule), vec3(origin[0], origin[1], origin[2])];
    let whole = compose(&fields, &rule);
    assert_eq!(whole.bytes.len(), 60);
    let back = decompose(&whole, &descriptors(&fields), &rule);
    assert_eq!(read_mat3(&back[0], &rule), view);
    assert_eq!(read_vec3(&back[1]), origin);
}

#[test]
fn composite_bytes_are_placed_with_zeroed_padding() {
    let rule = LayoutRule::std140();
    let fields = vec![scalar(0x0403_0201), vec3(1.0, 2.0, 3.0), scalar(0xdead_beef)];
    let whole = compose(&fields, &rule);
    assert_eq!(whole.alignment, 16);
    assert_eq!(whole.bytes.len(), 32);
    assert_eq!(&whole.bytes[0..4], &[1, 2, 3, 4]);
    assert_eq!(&whole.bytes[4..16], &[0u8; 12]);
    assert_eq!(&whole.bytes[16..20], &1.0f32.to_bits().to_le_bytes());
    assert_eq!(&whole.bytes[28..32], &0xdead_beefu32.to_le_bytes());
    let back = decompose(&whole, &descriptors(&fields), &rule);
    assert_eq!(scalar_value(&back[0]), 0x0403_0201);
    assert_eq!(scalar_value(&back[2]), 0xdead_beef);
}

#[test]
fn round_trip_of_every_scalar_kind() {
    let rule = LayoutRule::std430();
    let b: Bool = true.into();
    let fields = vec![
        scalar((-7i32) as u32),
        double(2.5f64.to_bits()),
        b.to_mirror(),
        dvector(&vec![1.5f64.to_bits(), (-2.0f64).to_bits()]),
        vector(&vec![9, 8]),
    ];
    let whole = compose(&fields, &rule);
    let back = decompose(&whole, &descriptors(&fields), &rule);
    assert_eq!(scalar_value(&back[0]) as i32, -7);
    assert_eq!(f64::from_bits(double_value(&back[1])), 2.5);
    assert!(bool::from(Bool::from_mirror(&back[2])));
    let d = dvector_components(&back[3], 2);
    assert_eq!(f64::from_bits(d[0]), 1.5);
    assert_eq!(f64::from_bits(d[1]), -2.0);
    assert_eq!(vector_components(&back[4], 2), vec![9, 8]);
    for (a, b) in fields.iter().zip(back.iter()) {
        assert_eq!(a.bytes, b.bytes);
        assert_eq!(a.alignment, b.alignment);
    }
}

#[test]
fn array_of_vec3_has_stride_16_under_std140() {
    let rule = LayoutRule::std140();
    for len in 1..5usize {
        let elems: Vec<Mirror> = (0..len).map(|i| vec3(i as f32, 1.0, 2.0)).collect();
        let a = array(&elems, elems[0].descriptor(), &rule);
        assert_eq!(a.bytes.len(), 16 * len);
        assert_eq!(a.alignment, 16);
        for i in 0..len {
            assert_eq!(&a.bytes[16 * i + 12..16 * i + 16], &[0u8; 4]);
        }
        let back = array_elements(&a, elems[0].descriptor(), len, &rule);
        for i in 0..len {
            assert_eq!(read_vec3(&back[i]), [i as f32, 1.0, 2.0]);
        }
    }
}

#[test]
fn scalar_array_stride_depends_on_rule() {
    let elems = vec![scalar(1), scalar(2), scalar(3)];
    let d = elems[0].descriptor();
    let a140 = array(&elems, d, &LayoutRule::std140());
    assert_eq!(a140.bytes.len(), 48);
    assert_eq!(a140.alignment, 16);
    let a430 = array(&elems, d, &LayoutRule::std430());
    assert_eq!(a430.bytes, vec![1, 0, 0, 0, 2, 0, 0, 0, 3, 0, 0, 0]);
    assert_eq!(a430.alignment, 4);
}

#[test]
fn wrap_pads_to_stride_and_unwrap_restores() {
    let v = vec3(1.0, 2.0, 3.0);
    let w = wrap(&v, &LayoutRule::std430());
    assert_eq!(w.bytes.len(), 16);
    assert_eq!(&w.bytes[12..], &[0u8; 4]);
    let u = unwrap(&w, v.descriptor());
    assert_eq!(u.bytes, v.bytes);
    let s = wrap(&scalar(5), &LayoutRule::std140());
    assert_eq!(s.bytes.len(), 16);
    let s430 = wrap(&scalar(5), &LayoutRule::std430());
    assert_eq!(s430.bytes, vec![5, 0, 0, 0]);
}

#[test]
fn std140_and_std430_array_conversions_round_trip() {
    let elems: Vec<Mirror> = (0..5u32).map(|i| vector(&vec![i, i + 1])).collect();
    let d = elems[0].descriptor();
    let a = as_std140(&elems, d);
    assert_eq!(a.bytes.len(), 5 * 16);
    assert_eq!(a.alignment, 16);
    let back = from_std140(&a, d, 5);
    let b = as_std430(&elems, d);
    assert_eq!(b.bytes.len(), 5 * 8);
    assert_eq!(b.alignment, 8);
    let back430 = from_std430(&b, d, 5);
    for i in 0..5 {
        assert_eq!(back[i].bytes, elems[i].bytes);
        assert_eq!(back430[i].bytes, elems[i].bytes);
        assert_eq!(vector_components(&back[i], 2), vec![i as u32, i as u32 + 1]);
    }
}
