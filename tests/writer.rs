use crevice::arrays::array;
use crevice::mirror::compose;
use crevice::primitives::{scalar, vector};
use crevice::{DynamicUniform, LayoutRule, Mirror, Primitive, Sizer, WriteError, Writer};

fn vec3(x: f32, y: f32, z: f32) -> Mirror {
    vector(&vec![x.to_bits(), y.to_bits(), z.to_bits()])
}

fn point_light(position: [f32; 3], color: [f32; 3], brightness: f32) -> Mirror {
    let fields = vec![
        vec3(position[0], position[1], position[2]),
        vec3(color[0], color[1], color[2]),
        scalar(brightness.to_bits()),
    ];
    compose(&fields, &LayoutRule::std140())
}

#[test]
fn size_is_unchanged() {
    let inner = scalar(0.0f32.to_bits());
    let wrapped = DynamicUniform(inner.clone()).as_std140();
    assert_eq!(wrapped.size(), inner.bytes.len());
    assert_eq!(wrapped.size(), 4);
}

#[test]
fn alignment_applies() {
    let mut writer = Writer::new(LayoutRule::std140(), 1024);
    let first = DynamicUniform(scalar(0.0f32.to_bits())).as_std140().to_mirror();
    writer.write(&first).unwrap();
    assert_eq!(writer.len(), 4);
    let second = DynamicUniform(scalar(1.0f32.to_bits())).as_std140().to_mirror();
    writer.write(&second).unwrap();
    assert_eq!(writer.len(), 260);
}

#[test]
fn dynamic_uniform_changes_only_alignment() {
    let inner = vec3(1.0, 2.0, 3.0);
    let wrapped = DynamicUniform(inner.clone()).as_std140();
    assert_eq!(wrapped.alignment(), 256);
    let m = wrapped.to_mirror();
    assert_eq!(m.alignment, 256);
    assert_eq!(m.bytes, inner.bytes);
    let big = Mirror { alignment: 512, bytes: vec![7; 3] };
    let wrapped_big = DynamicUniform(big).as_std140();
    assert_eq!(wrapped_big.alignment(), 512);
    let back = DynamicUniform::from_std140(wrapped_big);
    assert_eq!(back.0.alignment, 512);
    assert_eq!(back.0.bytes, vec![7; 3]);
}

#[test]
fn writer_pads_between_length_and_lights() {
    let lights = vec![
        point_light([0.0, 1.0, 0.0], [1.0, 0.0, 0.0], 0.6),
        point_light([0.0, 4.0, 3.0], [1.0, 1.0, 1.0], 1.0),
    ];
    let mut writer = Writer::new(LayoutRule::std140(), 1024);
    assert_eq!(writer.write(&scalar(lights.len() as u32)), Ok(0));
    assert_eq!(writer.write(&lights[0]), Ok(16));
    assert_eq!(writer.write(&lights[1]), Ok(48));
    assert_eq!(writer.len(), 80);
    let bytes = writer.as_bytes();
    assert_eq!(&bytes[0..4], &[2, 0, 0, 0]);
    assert_eq!(&bytes[4..16], &[0u8; 12]);
}

#[test]
fn writer_and_sizer_agree() {
    let values = vec![
        scalar(3),
        vec3(1.0, 2.0, 3.0),
        Mirror { alignment: 8, bytes: vec![1; 8] },
        scalar(9),
        DynamicUniform(scalar(1)).as_std140().to_mirror(),
        vector(&vec![1, 2]),
    ];
    let mut writer = Writer::new(LayoutRule::std430(), 4096);
    let mut sizer = Sizer::new();
    for v in &values {
        let at = writer.write(v).unwrap();
        assert_eq!(sizer.add(v.descriptor()), at);
        assert_eq!(sizer.len(), writer.len());
    }
    assert_eq!(writer.len(), 272);
}

#[test]
fn sizer_example() {
    let frob = compose(&vec![vec3(1.0, 1.0, 1.0), scalar(0)], &LayoutRule::std140());
    let mut sizer = Sizer::new();
    assert_eq!(sizer.add(Primitive::Uint.descriptor(&LayoutRule::std140())), 0);
    assert_eq!(sizer.add(frob.descriptor()), 16);
    assert_eq!(sizer.len(), 32);
}

#[test]
fn writer_refuses_what_does_not_fit() {
    let mut writer = Writer::new(LayoutRule::std140(), 20);
    assert_eq!(writer.write(&scalar(1)), Ok(0));
    assert_eq!(writer.write(&vec3(1.0, 2.0, 3.0)), Err(WriteError::CapacityExceeded));
    assert_eq!(writer.len(), 4);
    assert_eq!(writer.write(&scalar(2)), Ok(4));
    assert_eq!(writer.write(&Mirror { alignment: 16, bytes: vec![1; 4] }), Ok(16));
    assert_eq!(writer.len(), 20);
    assert_eq!(writer.write(&Mirror { alignment: 1, bytes: vec![1] }), Err(WriteError::CapacityExceeded));
    assert_eq!(writer.len(), 20);
}

#[test]
fn write_slice_uses_array_stride_between_elements_only() {
    let rule = LayoutRule::std140();
    let mut writer = Writer::new(rule, 1024);
    writer.write(&scalar(2)).unwrap();
    let run = vec![scalar(10), scalar(11)];
    assert_eq!(writer.write_slice(&run), Ok(4));
    assert_eq!(writer.len(), 24);
    assert_eq!(&writer.as_bytes()[4..8], &[10, 0, 0, 0]);
    assert_eq!(&writer.as_bytes()[8..20], &[0u8; 12]);
    assert_eq!(&writer.as_bytes()[20..24], &[11, 0, 0, 0]);
    assert_eq!(writer.write_slice(&vec![]), Ok(24));
    assert_eq!(writer.len(), 24);
    let mut sizer = Sizer::new();
    sizer.add(scalar(2).descriptor());
    assert_eq!(sizer.add_slice(run[0].descriptor(), 2, &rule), 4);
    assert_eq!(sizer.len(), 24);
    assert_eq!(sizer.add_slice(run[0].descriptor(), 0, &rule), 24);
    assert_eq!(sizer.len(), 24);
}

#[test]
fn two_std140_scalars_from_zero_end_at_20() {
    let rule = LayoutRule::std140();
    let mut writer = Writer::new(rule, 20);
    assert_eq!(writer.write_slice(&vec![scalar(1), scalar(2)]), Ok(0));
    assert_eq!(writer.len(), 20);
    let mut sizer = Sizer::new();
    assert_eq!(sizer.add_slice(Primitive::Float.descriptor(&rule), 2, &rule), 0);
    assert_eq!(sizer.len(), 20);
    let mut small = Writer::new(rule, 19);
    assert_eq!(small.write_slice(&vec![scalar(1), scalar(2)]), Err(WriteError::CapacityExceeded));
    assert_eq!(small.len(), 0);
}

#[test]
fn write_slice_of_vec3_runs() {
    let rule = LayoutRule::std140();
    let mut writer = Writer::new(rule, 1024);
    writer.write(&scalar(3)).unwrap();
    let run = vec![vec3(1.0, 2.0, 3.0), vec3(4.0, 5.0, 6.0), vec3(7.0, 8.0, 9.0)];
    assert_eq!(writer.write_slice(&run), Ok(16));
    assert_eq!(writer.len(), 16 + 2 * 16 + 12);
    let expected = array(&run, run[0].descriptor(), &rule);
    assert_eq!(&writer.as_bytes()[16..60], &expected.bytes[..44]);
}

#[test]
fn write_slice_std430_packs_scalars() {
    let mut writer = Writer::new(LayoutRule::std430(), 1024);
    writer.write(&scalar(2)).unwrap();
    assert_eq!(writer.write_slice(&vec![scalar(10), scalar(11)]), Ok(4));
    assert_eq!(writer.len(), 12);
}
