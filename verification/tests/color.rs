use three_d_asset::color::{Color, ColorConversionError};

fn test_ok(input: Color, expected_output: Color) {
    let i: usize = input.to_packed();
    let output: Result<Color, ColorConversionError> = Color::try_from_packed(i);
    assert_eq!(output, Ok(expected_output));
}

fn test_err(input: Color) {
    let i: usize = input.to_packed();
    let output: Result<Color, ColorConversionError> = Color::try_from_packed(i);
    assert_eq!(output, Err(ColorConversionError::Overflow));
}

#[test]
fn color_roundtrip() {
    test_ok(Color::new(0, 0, 0, 0), Color::new(0, 0, 0, 0));
    test_ok(Color::new(255, 0, 0, 0), Color::new(255, 0, 0, 0));
    test_ok(Color::new(0, 255, 0, 0), Color::new(0, 255, 0, 0));
    test_ok(Color::new(0, 0, 255, 0), Color::new(0, 0, 255, 0));
    test_ok(Color::new(0, 0, 0, 255), Color::new(0, 0, 0, 255));
    test_ok(Color::new(255, 255, 0, 0), Color::new(255, 255, 0, 0));
    test_ok(Color::new(255, 255, 255, 0), Color::new(255, 255, 255, 0));
    test_err(Color::new(255, 255, 255, 255));
}

#[test]
fn usize_roundtrip() {
    for i in 0..=u16::MAX {
        let color: Color =
            Color::try_from_packed(i as usize).expect("Failed to convert into color");
        let output: usize = color.to_packed();
        assert_eq!(output, i as usize);
    }
}

#[test]
fn overflow_boundary() {
    let packed_white = Color::new(255, 255, 255, 255).to_packed();
    assert_eq!(packed_white, 0xFFFF_FFFF);
    assert_eq!(
        Color::try_from_packed(packed_white),
        Err(ColorConversionError::Overflow)
    );

    let almost = Color::new(255, 255, 255, 254);
    let packed_almost = almost.to_packed();
    assert_eq!(packed_almost, 0xFFFF_FFFE);
    assert_eq!(Color::try_from_packed(packed_almost), Ok(almost));
}

#[test]
fn packed_layout() {
    assert_eq!(Color::new(1, 2, 3, 4).to_packed(), 0x0102_0304);
    assert_eq!(Color::new(0, 0, 0, 0).to_packed(), 0);
    assert_eq!(
        Color::try_from_packed(0xAABB_CCDD),
        Ok(Color::new(0xAA, 0xBB, 0xCC, 0xDD))
    );
}

#[test]
fn lexicographic_order() {
    // The total order compares (r, g, b, a) lexicographically.
    assert!(Color::new(1, 0, 0, 0) > Color::new(0, 255, 255, 255));
    assert!(Color::new(1, 2, 0, 0) > Color::new(1, 1, 255, 255));
    assert!(Color::new(1, 2, 3, 0) > Color::new(1, 2, 2, 255));
    assert!(Color::new(1, 2, 3, 4) > Color::new(1, 2, 3, 3));
    assert!(Color::new(1, 2, 3, 4) == Color::new(1, 2, 3, 4));
}

#[test]
fn constructors() {
    let c = Color::new(10, 20, 30, 40);
    assert_eq!((c.r, c.g, c.b, c.a), (10, 20, 30, 40));
    let o = Color::new_opaque(10, 20, 30);
    assert_eq!((o.r, o.g, o.b, o.a), (10, 20, 30, 255));
    let d = Color::default();
    assert_eq!(d, Color::new(255, 255, 255, 255));
}
