use safer_ffi::{absent_discriminant, max, Field, Shape};

fn tag_enum() -> Shape {
    Shape::Discriminant { width: 1, values: vec![42, 43] }
}

fn tagged_slice() -> Shape {
    Shape::Product {
        size: 24,
        fields: vec![
            Field { offset: 0, shape: tag_enum() },
            Field { offset: 8, shape: Shape::Slice { elem_align: 4 } },
        ],
    }
}

fn slice_bytes(ptr: u64, len: u64) -> Vec<u8> {
    let mut b = ptr.to_le_bytes().to_vec();
    b.extend_from_slice(&len.to_le_bytes());
    b
}

fn tagged_bytes(tag: u8, pad: u8, ptr: u64, len: u64) -> Vec<u8> {
    let mut b = vec![tag, pad, pad, pad, pad, pad, pad, pad];
    b.extend(slice_bytes(ptr, len));
    b
}

#[test]
fn discriminant_boundary() {
    let e = tag_enum();
    assert!(e.is_valid(&[42]));
    assert!(e.is_valid(&[43]));
    assert!(!e.is_valid(&[0]));
    assert!(!e.is_valid(&[44]));
}

#[test]
fn niche_composition_every_byte() {
    let option = Shape::Optional { inner: Box::new(tag_enum()) };
    assert_eq!(absent_discriminant(&vec![42, 43]), 44);
    for b in 0..=255u8 {
        assert_eq!(option.is_valid(&[b]), b == 42 || b == 43 || b == 44, "byte {}", b);
    }
}

#[test]
fn absent_pattern_is_never_valid() {
    let e = tag_enum();
    assert!(e.is_absent(&[44]));
    assert!(!e.is_valid(&[44]));
    assert!(!e.is_absent(&[43]));
    let f = Shape::FnPtr;
    assert!(f.is_absent(&[0; 8]));
    assert!(!f.is_valid(&[0; 8]));
}

#[test]
fn padding_does_not_matter() {
    let s = tagged_slice();
    let cases = [(42u8, 4u64, 0u64), (43, 8, 3), (0, 4, 0), (42, 0, 0), (42, 0, 1), (42, 3, 0), (44, 4, 2)];
    for (tag, ptr, len) in cases {
        let zero = s.is_valid(&tagged_bytes(tag, 0x00, ptr, len));
        let ones = s.is_valid(&tagged_bytes(tag, 0xFF, ptr, len));
        assert_eq!(zero, ones);
        let field_wise = tag_enum().is_valid(&[tag])
            && Shape::Slice { elem_align: 4 }.is_valid(&slice_bytes(ptr, len));
        assert_eq!(zero, field_wise);
    }
}

#[test]
fn empty_slice_with_null_pointer() {
    let slice = Shape::Slice { elem_align: 4 };
    assert!(slice.is_valid(&slice_bytes(0, 0)));
    assert!(!slice.is_valid(&slice_bytes(0, 5)));
    assert!(slice.is_valid(&slice_bytes(16, 5)));
    assert!(!slice.is_valid(&slice_bytes(6, 5)));
    let empty: Vec<i32> = Vec::new();
    assert_eq!(max(&empty), None);
}

#[test]
fn round_trip_of_built_values() {
    let s = tagged_slice();
    let xs = [1u32, 2, 3];
    let ptr = xs.as_ptr() as u64;
    assert!(s.is_valid(&tagged_bytes(43, 0x5A, ptr, xs.len() as u64)));
    let empty: &[u32] = &[];
    assert!(s.is_valid(&tagged_bytes(42, 0, empty.as_ptr() as u64, 0)));
    let f: fn() = round_trip_of_built_values;
    assert!(Shape::FnPtr.is_valid(&(f as usize as u64).to_le_bytes()));
    assert!(Shape::Primitive { size: 4 }.is_valid(&0xDEAD_BEEFu32.to_le_bytes()));
}

#[test]
fn optional_struct_uses_first_niche_field() {
    let inner = Shape::Product {
        size: 16,
        fields: vec![
            Field { offset: 0, shape: Shape::Primitive { size: 4 } },
            Field { offset: 4, shape: Shape::Discriminant { width: 2, values: vec![1, 300] } },
            Field { offset: 8, shape: Shape::FnPtr },
        ],
    };
    assert!(inner.niche_available());
    assert_eq!(absent_discriminant(&vec![1, 300]), 301);
    let option = Shape::Optional { inner: Box::new(inner) };
    let mut none = vec![0u8; 16];
    none[4] = 0x2D;
    none[5] = 0x01;
    assert!(option.is_valid(&none));
    let mut some = vec![7u8; 16];
    some[4] = 0x2C;
    some[5] = 0x01;
    assert!(option.is_valid(&some));
    some[8..16].copy_from_slice(&[0; 8]);
    assert!(!option.is_valid(&some));
    none[4] = 0x2E;
    assert!(!option.is_valid(&none));
}

#[test]
fn wide_discriminant_and_sizes() {
    let e = Shape::Discriminant { width: 4, values: vec![0x0102_0304] };
    assert!(e.is_valid(&[4, 3, 2, 1]));
    assert!(!e.is_valid(&[1, 2, 3, 4]));
    assert_eq!(e.size_of(), 4);
    assert_eq!(tagged_slice().size_of(), 24);
    assert_eq!(Shape::Optional { inner: Box::new(Shape::FnPtr) }.size_of(), 8);
    let full = Shape::Discriminant { width: 1, values: vec![255] };
    assert!(!full.niche_available());
    assert!(!Shape::Primitive { size: 8 }.niche_available());
    assert!(Shape::Slice { elem_align: 1 }.niche_available());
}

#[test]
fn variant_index_converts_valid_bytes() {
    let e = tag_enum();
    assert_eq!(e.variant_index(&[42]), Some(0));
    assert_eq!(e.variant_index(&[43]), Some(1));
    assert_eq!(e.variant_index(&[44]), None);
    assert_eq!(e.variant_index(&[0]), None);
}

#[test]
fn optional_slice_uses_null_with_length_one() {
    let option = Shape::Optional { inner: Box::new(Shape::Slice { elem_align: 4 }) };
    assert!(option.is_valid(&slice_bytes(0, 1)));
    assert!(option.is_valid(&slice_bytes(0, 0)));
    assert!(option.is_valid(&slice_bytes(8, 3)));
    assert!(!option.is_valid(&slice_bytes(0, 2)));
    assert!(Shape::Slice { elem_align: 4 }.is_absent(&slice_bytes(0, 1)));
    assert!(!Shape::Slice { elem_align: 4 }.is_valid(&slice_bytes(0, 1)));
}
