use safer_ffi::{absent_discriminant, concat_str, max, Field, Shape};

fn my_bool() -> Shape {
    Shape::Discriminant { width: 1, values: vec![42, 43] }
}

fn foo() -> Shape {
    Shape::Product {
        size: 24,
        fields: vec![
            Field { offset: 0, shape: my_bool() },
            Field { offset: 8, shape: Shape::Slice { elem_align: 4 } },
        ],
    }
}

fn foo_bytes(tag: u8, ptr: u8) -> [u8; 24] {
    [
        tag, 0, 0, 0, 0, 0, 0, 0,
        ptr, 0x00, 0x00, 0x00, 0x00, 0x00, 0x00, 0x00,
        0x00, 0x00, 0x00, 0x00, 0x00, 0x00, 0x00, 0x00,
    ]
}

#[test]
fn validity() {
    let foo = foo();
    assert!(foo.is_valid(&foo_bytes(42, 0x04)));
    assert!(foo.is_valid(&foo_bytes(43, 0x04)));
    assert!(!foo.is_valid(&foo_bytes(0, 0x04)));
    // An empty slice may carry a null pointer.
    assert!(foo.is_valid(&foo_bytes(42, 0x00)));
    assert!(!foo.is_valid(&foo_bytes(42, 0x03)));
}

#[test]
fn test_concat() {
    let it = concat_str("Hello, ", "World!");
    assert_eq!(it.as_bytes(), b"Hello, World!");
}

#[test]
fn test_max() {
    let empty: [i32; 0] = [];
    assert!(max(&empty).is_none());
    let xs = &[-8, -2, -4][..];
    assert_eq!(max(xs), xs.iter().max().copied());
    assert_eq!(max(xs), Some(-2));
}

#[test]
fn test_niche() {
    let my_bool = my_bool();
    assert!(my_bool.is_valid(&[42]));
    assert!(my_bool.is_valid(&[43]));
    assert!(!my_bool.is_valid(&[44]));

    let option = Shape::Optional { inner: Box::new(my_bool) };
    assert!(option.is_valid(&[42]));
    assert!(option.is_valid(&[43]));
    let none = absent_discriminant(&vec![42, 43]) as u8;
    assert!(option.is_valid(&[none]));
}
