use icy_sixel::{sixel_encode, EncodeOptions};

#[test]
fn test_encode_simple() {
    let rgba = vec![255u8, 0, 0, 255]; // 1x1 red pixel
    let result = sixel_encode(&rgba, 1, 1, &EncodeOptions::default());
    assert!(result.is_ok());
    let sixel = result.unwrap();
    assert!(sixel.starts_with("\x1bPq"));
    assert!(sixel.ends_with("\x1b\\"));
}

#[test]
fn test_encode_2x2() {
    let rgba = vec![
        255, 0, 0, 255, // red
        0, 255, 0, 255, // green
        0, 0, 255, 255, // blue
        255, 255, 0, 255, // yellow
    ];
    let result = sixel_encode(&rgba, 2, 2, &EncodeOptions::default());
    assert!(result.is_ok());
}

#[test]
fn test_invalid_dimensions() {
    let rgba = vec![0u8; 16];

    assert!(sixel_encode(&rgba, 0, 4, &EncodeOptions::default()).is_err());
    assert!(sixel_encode(&rgba, 4, 0, &EncodeOptions::default()).is_err());
    assert!(sixel_encode(&rgba, 10, 10, &EncodeOptions::default()).is_err());
}

#[test]
fn encoder_test_encode_simple() {
    let rgba = vec![255u8, 0, 0, 255]; // 1x1 red pixel
    let result = sixel_encode(&rgba, 1, 1, &EncodeOptions::default());
    assert!(result.is_ok());
    let sixel = result.unwrap();
    assert!(sixel.starts_with("\x1bPq"));
    assert!(sixel.ends_with("\x1b\\"));
}

#[test]
fn encoder_test_encode_2x2() {
    let rgba = vec![
        255, 0, 0, 255, // red
        0, 255, 0, 255, // green
        0, 0, 255, 255, // blue
        255, 255, 0, 255, // yellow
    ];
    let result = sixel_encode(&rgba, 2, 2, &EncodeOptions::default());
    assert!(result.is_ok());
}

#[test]
fn encoder_test_invalid_dimensions() {
    let rgba = vec![0u8; 16];

    assert!(sixel_encode(&rgba, 0, 4, &EncodeOptions::default()).is_err());
    assert!(sixel_encode(&rgba, 4, 0, &EncodeOptions::default()).is_err());
    assert!(sixel_encode(&rgba, 10, 10, &EncodeOptions::default()).is_err());
}
