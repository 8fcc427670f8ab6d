use crevice::bool::Bool;
use crevice::composite::compile_layout;
use crevice::layout::{array_layout, stride};
use crevice::{align_offset, max, pad_at_end, LayoutDescriptor, LayoutRule, Primitive};

fn all_primitives() -> Vec<Primitive> {
    let mut v = vec![Primitive::Float, Primitive::Int, Primitive::Uint, Primitive::Bool, Primitive::Double];
    for n in 2..=4 {
        v.push(Primitive::Vec(n));
        v.push(Primitive::IVec(n));
        v.push(Primitive::UVec(n));
        v.push(Primitive::BVec(n));
        v.push(Primitive::DVec(n));
        v.push(Primitive::Mat(n));
        v.push(Primitive::DMat(n));
    }
    v
}

#[test]
fn catalog_alignments_are_powers_of_two_and_fit_their_stride() {
    for rule in [LayoutRule::std140(), LayoutRule::std430()] {
        for p in all_primitives() {
            let d = p.descriptor(&rule);
            assert!(d.alignment.is_power_of_two());
            assert!(d.size <= stride(d, rule));
        }
    }
}

#[test]
fn catalog_values() {
    let r140 = LayoutRule::std140();
    let r430 = LayoutRule::std430();
    let d = |alignment, size| LayoutDescriptor { alignment, size };
    assert_eq!(Primitive::Float.descriptor(&r140), d(4, 4));
    assert_eq!(Primitive::Double.descriptor(&r140), d(8, 8));
    assert_eq!(Primitive::Vec(2).descriptor(&r140), d(8, 8));
    assert_eq!(Primitive::Vec(3).descriptor(&r140), d(16, 12));
    assert_eq!(Primitive::Vec(4).descriptor(&r140), d(16, 16));
    assert_eq!(Primitive::DVec(2).descriptor(&r140), d(16, 16));
    assert_eq!(Primitive::DVec(3).descriptor(&r140), d(32, 24));
    assert_eq!(Primitive::DVec(4).descriptor(&r140), d(32, 32));
    assert_eq!(Primitive::Mat(2).descriptor(&r140), d(16, 32));
    assert_eq!(Primitive::Mat(3).descriptor(&r140), d(16, 48));
    assert_eq!(Primitive::Mat(4).descriptor(&r140), d(16, 64));
    assert_eq!(Primitive::DMat(3).descriptor(&r140), d(32, 96));
    assert_eq!(Primitive::Mat(2).descriptor(&r430), d(8, 16));
    assert_eq!(Primitive::Mat(3).descriptor(&r430), d(16, 48));
    assert_eq!(Primitive::Bool.descriptor(&r430), d(4, 4));
}

#[test]
fn vec3_array_stride_is_16_under_both_rules() {
    let v = Primitive::Vec(3).descriptor(&LayoutRule::std140());
    assert_eq!(stride(v, LayoutRule::std140()), 16);
    assert_eq!(stride(v, LayoutRule::std430()), 16);
    for len in [0usize, 1, 2, 7] {
        assert_eq!(array_layout(v, len, LayoutRule::std140()).size, 16 * len);
    }
    let f = Primitive::Float.descriptor(&LayoutRule::std430());
    assert_eq!(stride(f, LayoutRule::std430()), 4);
    assert_eq!(stride(f, LayoutRule::std140()), 16);
}

#[test]
fn std430_packs_without_end_padding() {
    let rule = LayoutRule::std430();
    let f = Primitive::Float.descriptor(&rule);
    let layout = compile_layout(&vec![f, f], &rule);
    assert_eq!(layout.size, 8);
    assert_eq!(layout.alignment, 4);
    let layout = compile_layout(&vec![Primitive::Vec(3).descriptor(&rule), f], &rule);
    assert_eq!(layout.offsets, vec![0, 12]);
    assert_eq!(layout.size, 16);
    let layout = compile_layout(&vec![f, Primitive::DVec(3).descriptor(&rule), f], &rule);
    assert_eq!(layout.offsets, vec![0, 32, 56]);
    assert_eq!(layout.paddings, vec![0, 28, 0]);
    assert_eq!(layout.size, 60);
    assert_eq!(layout.alignment, 32);
}

#[test]
fn empty_std140_struct_is_empty() {
    let layout = compile_layout(&vec![], &LayoutRule::std140());
    assert_eq!(layout.size, 0);
    assert_eq!(layout.alignment, 16);
}

#[test]
fn alignment_helpers() {
    assert_eq!(align_offset(0, 16), 0);
    assert_eq!(align_offset(4, 16), 12);
    assert_eq!(align_offset(17, 8), 7);
    assert_eq!(align_offset(32, 32), 0);
    assert_eq!(max(3, 9), 9);
    assert_eq!(max(9, 3), 9);
    assert_eq!(pad_at_end(20, 16, true), 12);
    assert_eq!(pad_at_end(20, 16, false), 0);
    assert_eq!(pad_at_end(20, 0, false), 0);
    assert_eq!(pad_at_end(32, 16, true), 0);
}

#[test]
fn bool_adapter() {
    assert_eq!(Bool::as_device(true), 1);
    assert_eq!(Bool::as_device(false), 0);
    assert!(Bool::from_device(1));
    assert!(Bool::from_device(0xffff_ffff));
    assert!(Bool::from_device(2));
    assert!(!Bool::from_device(0));
    let t: Bool = true.into();
    assert_eq!(t, Bool(1));
    assert!(bool::from(Bool(7)));
    assert!(!bool::from(Bool::from(false)));
    let m = Bool(0x0100_0002).to_mirror();
    assert_eq!(m.alignment, 4);
    assert_eq!(m.bytes, vec![2, 0, 0, 1]);
    assert_eq!(Bool::from_mirror(&m), Bool(0x0100_0002));
}
