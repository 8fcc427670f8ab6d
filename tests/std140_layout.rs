use crevice::compile_layout;
use crevice::{LayoutDescriptor, LayoutRule, Primitive};

fn std140(p: Primitive) -> LayoutDescriptor {
    p.descriptor(&LayoutRule::std140())
}

fn nested(fields: &[LayoutDescriptor]) -> LayoutDescriptor {
    compile_layout(&fields.to_vec(), &LayoutRule::std140()).descriptor()
}

fn check(fields: &[LayoutDescriptor], size: usize, align: usize, offsets: &[usize]) {
    let layout = compile_layout(&fields.to_vec(), &LayoutRule::std140());
    assert_eq!(layout.size, size);
    assert_eq!(layout.alignment, align);
    assert_eq!(layout.offsets, offsets.to_vec());
}

#[test]
fn lib_two_f32() {
    check(&[std140(Primitive::Float), std140(Primitive::Float)], 16, 16, &[0, 4]);
}

#[test]
fn lib_vec2() {
    check(&[std140(Primitive::Vec(2))], 16, 16, &[0]);
}

#[test]
fn lib_dvec4() {
    check(&[std140(Primitive::DVec(4))], 32, 32, &[0]);
}

#[test]
fn four_f64() {
    let d = std140(Primitive::Double);
    check(&[d, d, d, d], 32, 16, &[0, 8, 16, 24]);
}

#[test]
fn lib_two_vec3() {
    let v = std140(Primitive::Vec(3));
    check(&[v, v], 32, 16, &[0, 16]);
}

#[test]
fn lib_two_vec4() {
    let v = std140(Primitive::Vec(4));
    check(&[v, v], 32, 16, &[0, 16]);
}

#[test]
fn lib_vec3_then_f32() {
    check(&[std140(Primitive::Vec(3)), std140(Primitive::Float)], 16, 16, &[0, 12]);
}

#[test]
fn lib_mat3_padding() {
    check(&[std140(Primitive::Mat(3)), std140(Primitive::Float)], 64, 16, &[0, 48]);
}

#[test]
fn lib_padding_after_struct() {
    let two_f32 = nested(&[std140(Primitive::Float)]);
    check(&[two_f32, std140(Primitive::Float)], 32, 16, &[0, 16]);
}

#[test]
fn lib_proper_offset_calculations_for_differing_member_sizes() {
    let foo = nested(&[std140(Primitive::Float)]);
    let bar = nested(&[foo, foo]);
    check(&[bar, foo], 48, 16, &[0, 32]);
}

#[test]
fn test_two_vec3() {
    let v = std140(Primitive::Vec(3));
    check(&[v, v], 32, 16, &[0, 16]);
}

#[test]
fn test_dvec4() {
    check(&[std140(Primitive::DVec(4))], 32, 32, &[0]);
}

#[test]
fn primitive_f32() {
    let layout = compile_layout(
        &vec![std140(Primitive::Float), std140(Primitive::Float)],
        &LayoutRule::std140(),
    );
    assert_eq!(layout.alignment, 16);
}

#[test]
fn test_vec3() {
    let v = std140(Primitive::Vec(3));
    let layout = compile_layout(&vec![v, v], &LayoutRule::std140());
    assert_eq!(layout.alignment, 16);
}

#[test]
fn using_vec3_padding() {
    let layout = compile_layout(
        &vec![std140(Primitive::Vec(3)), std140(Primitive::Float)],
        &LayoutRule::std140(),
    );
    assert_eq!(layout.alignment, 16);
    assert_eq!(layout.offsets, vec![0, 12]);
}

#[test]
fn std140_point_light() {
    let v = std140(Primitive::Vec(3));
    let layout = compile_layout(&vec![v, v, v, std140(Primitive::Float)], &LayoutRule::std140());
    assert_eq!(layout.alignment, 16);
    assert_eq!(layout.offsets, vec![0, 16, 32, 44]);
    assert_eq!(layout.size, 48);
}

#[test]
fn more_than_16_alignment() {
    let layout = compile_layout(&vec![std140(Primitive::DVec(4))], &LayoutRule::std140());
    assert_eq!(layout.alignment, 32);
}

#[test]
fn padding_at_end() {
    let primitive_f32 = nested(&[std140(Primitive::Float), std140(Primitive::Float)]);
    let layout = compile_layout(&vec![primitive_f32, std140(Primitive::Float)], &LayoutRule::std140());
    assert_eq!(layout.offsets, vec![0, 16]);
    assert_eq!(layout.paddings, vec![0, 0]);
    assert_eq!(layout.size, 32);
}

#[test]
fn matrix_uniform_std140() {
    let layout = compile_layout(
        &vec![std140(Primitive::Mat(3)), std140(Primitive::Float)],
        &LayoutRule::std140(),
    );
    assert_eq!(layout.offsets, vec![0, 48]);
    assert_eq!(layout.size, 64);
    assert_eq!(layout.alignment, 16);
}

#[test]
fn matrix_uniform_std430() {
    let rule = LayoutRule::std430();
    let layout = compile_layout(
        &vec![Primitive::Mat(3).descriptor(&rule), Primitive::Float.descriptor(&rule)],
        &rule,
    );
    assert_eq!(layout.offsets, vec![0, 48]);
    assert_eq!(layout.size, 52);
    assert_eq!(layout.alignment, 16);
}

#[test]
fn std140_proper_offset_calculations_for_differing_member_sizes() {
    let padded = nested(&[std140(Primitive::Float)]);
    let differing = nested(&[padded, padded]);
    let layout = compile_layout(&vec![differing, padded], &LayoutRule::std140());
    assert_eq!(layout.offsets, vec![0, 32]);
    assert_eq!(layout.paddings, vec![0, 0]);
    assert_eq!(layout.size, 48);
}
