use bevy_luau::layout::{align_up, FieldLayout, LayoutError};
use bevy_luau::types::LuauFieldType;

#[test]
fn align_up_rounds_to_multiple() {
    assert_eq!(align_up(13, 8), 16);
    assert_eq!(align_up(16, 8), 16);
    assert_eq!(align_up(0, 4), 0);
    assert_eq!(align_up(1, 1), 1);
    assert_eq!(align_up(5, 2), 6);
}

#[test]
fn from_size_align_accepts_valid() {
    let l = FieldLayout::from_size_align(10, 4).unwrap();
    assert_eq!(l.size(), 10);
    assert_eq!(l.align(), 4);
}

#[test]
fn from_size_align_refuses_non_power_of_two() {
    assert_eq!(FieldLayout::from_size_align(8, 3).unwrap_err(), LayoutError);
    assert_eq!(FieldLayout::from_size_align(8, 0).unwrap_err(), LayoutError);
}

#[test]
fn from_size_align_isize_limit() {
    let max = isize::MAX as usize;
    assert!(FieldLayout::from_size_align(max - 7, 8).is_ok());
    assert!(FieldLayout::from_size_align(max - 6, 8).is_err());
    assert!(FieldLayout::from_size_align(usize::MAX, 1).is_err());
    assert!(FieldLayout::from_size_align(max, 1).is_ok());
}

#[test]
fn extend_pads_to_next_alignment() {
    let a = FieldLayout::from_size_align(1, 1).unwrap();
    let b = FieldLayout::from_size_align(8, 8).unwrap();
    let (l, offset) = a.extend(b).unwrap();
    assert_eq!(offset, 8);
    assert_eq!(l.size(), 16);
    assert_eq!(l.align(), 8);
}

#[test]
fn extend_keeps_larger_alignment() {
    let a = FieldLayout::from_size_align(8, 8).unwrap();
    let b = FieldLayout::from_size_align(1, 1).unwrap();
    let (l, offset) = a.extend(b).unwrap();
    assert_eq!(offset, 8);
    assert_eq!(l.size(), 9);
    assert_eq!(l.align(), 8);
}

#[test]
fn extend_overflow_is_error() {
    let a = FieldLayout::from_size_align(isize::MAX as usize, 1).unwrap();
    let b = FieldLayout::from_size_align(1, 1).unwrap();
    assert_eq!(a.extend(b).unwrap_err(), LayoutError);
}

#[test]
fn pad_to_align_rounds_size() {
    let l = FieldLayout::from_size_align(9, 4).unwrap().pad_to_align();
    assert_eq!(l.size(), 12);
    assert_eq!(l.align(), 4);
    let m = FieldLayout::from_size_align(0, 8).unwrap().pad_to_align();
    assert_eq!(m.size(), 0);
}

#[test]
fn field_type_layouts() {
    let b = LuauFieldType::Bool.layout();
    assert_eq!((b.size(), b.align()), (1, 1));
    let i = LuauFieldType::Integer.layout();
    assert_eq!((i.size(), i.align()), (8, std::mem::align_of::<i64>()));
    let n = LuauFieldType::Number.layout();
    assert_eq!(n.size(), 8);
    let v = LuauFieldType::Vector4.layout();
    assert_eq!((v.size(), v.align()), (16, std::mem::align_of::<f32>()));
    let s = LuauFieldType::String.layout();
    assert_eq!((s.size(), s.align()), (4, 4));
    let buf = LuauFieldType::Buffer(5).layout();
    assert_eq!((buf.size(), buf.align()), (5, 1));
}

#[test]
fn field_type_sizes() {
    assert_eq!(LuauFieldType::Bool.size(), 1);
    assert_eq!(LuauFieldType::Integer.size(), 8);
    assert_eq!(LuauFieldType::Number.size(), 8);
    assert_eq!(LuauFieldType::Vector4.size(), 16);
    assert_eq!(LuauFieldType::String.size(), 4);
    assert_eq!(LuauFieldType::Buffer(3).size(), 3);
}
