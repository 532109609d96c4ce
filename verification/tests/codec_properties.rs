use icy_sixel::dcs::{pixel_aspect, strip_string_terminator, AnsiPayload, DcsSettings};
use icy_sixel::decoder::SixelDecoder;
use icy_sixel::emitter::{emit_sixel, Rgb};
use icy_sixel::encoder::{encode_indexed_to_sixel, encode_quantized};
use icy_sixel::{
    sixel_decode, sixel_decode_from_dcs, sixel_encode, sixel_encode_default, EncodeOptions,
    PixelAspectRatio, QuantizeMethod, SixelError, SixelImage,
};

fn pixel(image: &SixelImage, x: usize, y: usize) -> [u8; 4] {
    let at = (y * image.width + x) * 4;
    [
        image.pixels[at],
        image.pixels[at + 1],
        image.pixels[at + 2],
        image.pixels[at + 3],
    ]
}

fn solid(width: usize, height: usize, color: [u8; 4]) -> Vec<u8> {
    let mut rgba = Vec::new();
    for _ in 0..width * height {
        rgba.extend_from_slice(&color);
    }
    rgba
}

#[test]
fn decoded_buffer_has_four_bytes_per_pixel() {
    let inputs: [&[u8]; 6] = [
        b"\x1bPq\x1b\\",
        b"\x1bPq#0!5~\x1b\\",
        b"\x1bPq\"1;1;10;20#0~\x1b\\",
        b"no introducer at all ~~~-~~",
        b"\x90q#1~~-#2~~-\x9c",
        b"\x1bP0;1;0q#3!7~$#4!3?\x1b\\",
    ];
    for data in inputs {
        let image = sixel_decode(data).unwrap();
        assert_eq!(image.pixels.len(), image.width * image.height * 4);
        assert!(image.width >= 1);
        assert!(image.height >= 1);
    }
}

#[test]
fn opaque_mode_has_full_alpha_everywhere() {
    let image = sixel_decode(b"\x1bPq\"1;1;7;9#5!3~-#6?~\x1b\\").unwrap();
    assert!(!image.has_transparency);
    for y in 0..image.height {
        for x in 0..image.width {
            assert_eq!(pixel(&image, x, y)[3], 0xFF);
        }
    }
}

#[test]
fn transparent_mode_leaves_undrawn_pixels_clear() {
    let image = sixel_decode(b"\x1bP0;1;0q#2@?\x1b\\").unwrap();
    assert!(image.has_transparency);
    assert_eq!((image.width, image.height), (2, 6));
    assert_eq!(pixel(&image, 0, 0), [204, 33, 33, 255]);
    assert_eq!(pixel(&image, 0, 1), [0, 0, 0, 0]);
    assert_eq!(pixel(&image, 1, 0), [0, 0, 0, 0]);
}

#[test]
fn pixel_cap_is_enforced() {
    // 8192 x 8193 pixels are one row over the cap of 64 * 1024 * 1024.
    let over = sixel_decode(b"\x1bPq\"1;1;8192;8193\x1b\\");
    match over {
        Err(SixelError::InvalidData(message)) => assert_eq!(message, "image dimensions too large"),
        _ => panic!("an image over the pixel cap must be refused"),
    }
    let side = sixel_decode(b"\x1bPq\"1;1;1000001;1\x1b\\");
    match side {
        Err(SixelError::InvalidData(message)) => assert_eq!(message, "malformed SIXEL data"),
        _ => panic!("a side over a million pixels must be refused"),
    }
    let image = sixel_decode(b"\x1bPq\"1;1;2000;1000\x1b\\").unwrap();
    assert_eq!((image.width, image.height), (2000, 1000));
    assert!(image.width * image.height <= 64 * 1024 * 1024);
}

#[test]
fn decoder_returns_on_arbitrary_bytes() {
    let mut data: Vec<u8> = Vec::new();
    let mut seed: u32 = 12345;
    for round in 0..200 {
        data.clear();
        data.extend_from_slice(b"\x1bP");
        for _ in 0..(round % 40) {
            seed = seed.wrapping_mul(1664525).wrapping_add(1013904223);
            let choice = (seed >> 24) as u8;
            let byte = match choice % 8 {
                0 => b'#',
                1 => b'!',
                2 => b'"',
                3 => b';',
                4 => b'0' + (choice % 10),
                5 => b'-',
                6 => b'q',
                _ => 0x3f + (choice % 64),
            };
            data.push(byte);
        }
        match sixel_decode(&data) {
            Ok(image) => assert_eq!(image.pixels.len(), image.width * image.height * 4),
            Err(_) => {}
        }
    }
}

#[test]
fn decoder_returns_on_any_byte_values() {
    let mut data: Vec<u8> = Vec::new();
    let mut seed: u32 = 2463534242;
    for round in 0..300 {
        data.clear();
        if round % 3 == 0 {
            data.extend_from_slice(b"\x1bP");
        } else if round % 3 == 1 {
            data.push(0x90);
        }
        for _ in 0..(round % 64) {
            seed ^= seed << 13;
            seed ^= seed >> 17;
            seed ^= seed << 5;
            data.push((seed >> 11) as u8);
        }
        match sixel_decode(&data) {
            Ok(image) => {
                assert_eq!(image.pixels.len(), image.width * image.height * 4);
                assert!(image.width * image.height <= 64 * 1024 * 1024);
            }
            Err(e) => assert!(!e.message().is_empty()),
        }
    }
}

#[test]
fn encoder_output_is_framed() {
    let opaque = sixel_encode_default(&solid(3, 7, [10, 200, 30, 255]), 3, 7).unwrap();
    assert!(opaque.starts_with("\x1bPq"));
    assert!(opaque.ends_with("\x1b\\"));

    let mut rgba = solid(2, 2, [10, 200, 30, 255]);
    rgba[3] = 0;
    let clear = sixel_encode_default(&rgba, 2, 2).unwrap();
    assert!(clear.starts_with("\x1bP0;1;0q"));
    assert!(clear.ends_with("\x1b\\"));
}

#[test]
fn roundtrip_keeps_width_and_rounds_height_to_bands() {
    for (width, height) in [(1usize, 1usize), (2, 6), (5, 7), (9, 12), (4, 13)] {
        let mut rgba = Vec::new();
        for i in 0..width * height {
            rgba.extend_from_slice(&[(i * 37 % 256) as u8, (i * 11 % 256) as u8, 90, 255]);
        }
        let text = sixel_encode(&rgba, width, height, &EncodeOptions::default()).unwrap();
        let image = sixel_decode(text.as_bytes()).unwrap();
        assert_eq!(image.width, width);
        assert_eq!(image.height, (height + 5) / 6 * 6);
    }
}

#[test]
fn roundtrip_of_one_colour_stays_near_it() {
    for color in [[255u8, 0, 0], [0, 0, 0], [255, 255, 255], [12, 130, 77], [200, 100, 50]] {
        let rgba = solid(4, 6, [color[0], color[1], color[2], 255]);
        let text = sixel_encode_default(&rgba, 4, 6).unwrap();
        let image = sixel_decode(text.as_bytes()).unwrap();
        assert_eq!((image.width, image.height), (4, 6));
        for y in 0..6 {
            for x in 0..4 {
                let got = pixel(&image, x, y);
                for channel in 0..3 {
                    let gap = (got[channel] as i32 - color[channel] as i32).abs();
                    assert!(gap <= 4, "channel {} of {:?} came back as {:?}", channel, color, got);
                }
                assert_eq!(got[3], 255);
            }
        }
    }
}

#[test]
fn overlay_keeps_what_the_second_pass_leaves_out() {
    for (a, b) in [(2usize, 3usize), (0, 15), (16, 231), (255, 1)] {
        let data = format!("\x1bPq#{}~$#{}_\x1b\\", a, b);
        let image = sixel_decode(data.as_bytes()).unwrap();
        let first = sixel_decode(format!("\x1bPq#{}~\x1b\\", a).as_bytes()).unwrap();
        let second = sixel_decode(format!("\x1bPq#{}~\x1b\\", b).as_bytes()).unwrap();
        assert_eq!((image.width, image.height), (1, 6));
        for y in 0..5 {
            assert_eq!(pixel(&image, 0, y), pixel(&first, 0, 0));
        }
        assert_eq!(pixel(&image, 0, 5), pixel(&second, 0, 0));
    }
}

#[test]
fn empty_payload_is_one_background_pixel() {
    let image = sixel_decode(b"\x1bPq\x1b\\").unwrap();
    assert_eq!((image.width, image.height), (1, 1));
    assert_eq!(image.pixels, vec![0, 0, 0, 255]);
    assert_eq!(image.aspect_ratio, PixelAspectRatio { pan: 2, pad: 1 });
    assert!(!image.has_transparency);
}

#[test]
fn repeat_over_the_limit_is_refused() {
    match sixel_decode(b"\x1bPq#0!65536~\x1b\\") {
        Err(SixelError::InvalidData(message)) => assert_eq!(message, "malformed SIXEL data"),
        _ => panic!("a repeat count of 65536 must be refused"),
    }
    let image = sixel_decode(b"\x1bPq#0!65535~\x1b\\").unwrap();
    assert_eq!(image.width, 65535);
    let one = sixel_decode(b"\x1bPq#0!0~\x1b\\").unwrap();
    assert_eq!(one.width, 1);
}

#[test]
fn raster_attributes_set_the_size_without_any_sixel() {
    let image = sixel_decode(b"\x1bPq\"1;1;10;20\x1b\\").unwrap();
    assert_eq!((image.width, image.height), (10, 20));
    assert_eq!(pixel(&image, 9, 19), [0, 0, 0, 255]);
}

#[test]
fn raster_attributes_clamp_the_pixel_shape() {
    let mut decoder = SixelDecoder::new(DcsSettings::new(None, None, None)).unwrap();
    decoder.process(b"\"0;0;3;3").unwrap();
    assert_eq!((decoder.pad, decoder.pan), (1, 1));
    assert_eq!((decoder.target_width, decoder.target_height), (3, 3));

    let mut other = SixelDecoder::new(DcsSettings::new(None, None, None)).unwrap();
    other.process(b"\"7;4").unwrap();
    assert_eq!((other.pad, other.pan), (7, 4));
}

#[test]
fn scenario_red_pixel_column() {
    let image = sixel_decode(b"\x1bPq#2;2;100;0;0~\x1b\\").unwrap();
    assert_eq!((image.width, image.height), (1, 6));
    assert_eq!(pixel(&image, 0, 0), [255, 0, 0, 255]);
}

#[test]
fn scenario_repeat_of_five() {
    let image = sixel_decode(b"\x1bPq#0!5~\x1b\\").unwrap();
    assert_eq!((image.width, image.height), (5, 6));
}

#[test]
fn scenario_carriage_return_overlays_the_same_band() {
    let image = sixel_decode(b"\x1bPq#0~~$~~\x1b\\").unwrap();
    assert_eq!((image.width, image.height), (2, 6));
}

#[test]
fn scenario_red_then_green_bottom_row() {
    let image = sixel_decode(b"\x1bPq#2~$#3_\x1b\\").unwrap();
    assert!(image.height >= 6);
    assert_eq!(pixel(&image, 0, 0), [204, 33, 33, 255]);
    assert_eq!(pixel(&image, 0, image.height - 1), [51, 204, 51, 255]);
}

#[test]
fn scenario_declared_size_with_one_sixel() {
    let image = sixel_decode(b"\x1bPq\"1;1;10;20#0~\x1b\\").unwrap();
    assert!(image.width >= 10);
    assert!(image.height >= 20);
}

#[test]
fn image_ends_at_the_farthest_pixel_drawn() {
    // An empty column moves the cursor, but draws nothing below the first row.
    let image = sixel_decode(b"\x1bPq#1!3?\x1b\\").unwrap();
    assert_eq!((image.width, image.height), (3, 1));
    let lower = sixel_decode(b"\x1bPq#1!3?-@\x1b\\").unwrap();
    assert_eq!((lower.width, lower.height), (3, 12));
}

#[test]
fn envelope_is_found_after_stray_bytes() {
    let parsed = AnsiPayload::parse(b"junk\x1bP7;1;25q#1~\x9ctail").unwrap();
    assert_eq!(parsed.aspect_ratio, Some(7));
    assert_eq!(parsed.zero_color, Some(1));
    assert_eq!(parsed.grid_size, Some(25));
    assert_eq!(parsed.payload, b"#1~");

    let bare = AnsiPayload::parse(b"#1~").unwrap();
    assert_eq!(bare.aspect_ratio, None);
    assert_eq!(bare.payload, b"#1~");

    let lone = AnsiPayload::parse(b"\x90;q").unwrap();
    assert_eq!(lone.aspect_ratio, Some(0));
    assert_eq!(lone.zero_color, Some(0));
    assert_eq!(lone.grid_size, None);

    let big = AnsiPayload::parse(b"\x1bP99999q").unwrap();
    assert_eq!(big.aspect_ratio, Some(65535));
}

#[test]
fn control_byte_among_the_parameters_is_malformed() {
    match sixel_decode(b"\x1bP1;\x1b2q#0~\x1b\\") {
        Err(SixelError::InvalidData(message)) => assert_eq!(message, "malformed SIXEL data"),
        _ => panic!("ESC among the parameters must be refused"),
    }
    assert!(AnsiPayload::parse_dcs(b"abc", 4).is_err());
}

#[test]
fn string_terminator_is_stripped() {
    assert_eq!(strip_string_terminator(b"#0~\x1b\\"), b"#0~");
    assert_eq!(strip_string_terminator(b"#0~\x9c"), b"#0~");
    assert_eq!(strip_string_terminator(b"#0~"), b"#0~");
    assert_eq!(strip_string_terminator(b""), b"");
}

#[test]
fn pixel_shape_follows_the_table() {
    assert_eq!(pixel_aspect(None, None), (2, 1));
    assert_eq!(pixel_aspect(Some(0), None), (2, 2));
    assert_eq!(pixel_aspect(Some(1), None), (2, 2));
    assert_eq!(pixel_aspect(Some(2), None), (2, 5));
    assert_eq!(pixel_aspect(Some(3), None), (2, 4));
    assert_eq!(pixel_aspect(Some(4), None), (2, 4));
    assert_eq!(pixel_aspect(Some(5), None), (2, 3));
    assert_eq!(pixel_aspect(Some(6), None), (2, 3));
    assert_eq!(pixel_aspect(Some(7), None), (2, 2));
    assert_eq!(pixel_aspect(Some(8), None), (2, 2));
    assert_eq!(pixel_aspect(Some(9), None), (2, 1));
    assert_eq!(pixel_aspect(Some(10), None), (2, 1));
    assert_eq!(pixel_aspect(Some(2), Some(0)), (2, 5));
    assert_eq!(pixel_aspect(Some(2), Some(20)), (4, 10));
    assert_eq!(pixel_aspect(Some(9), Some(1)), (1, 1));

    let image = sixel_decode(b"\x1bP2;0;20q#0~\x1b\\").unwrap();
    assert_eq!(image.aspect_ratio, PixelAspectRatio { pan: 4, pad: 10 });
}

#[test]
fn corrected_dimensions_stretch_the_longer_side() {
    let mut image = sixel_decode(b"\x1bPq\"1;1;10;20\x1b\\").unwrap();
    image.aspect_ratio = PixelAspectRatio { pan: 1, pad: 1 };
    assert!(image.aspect_ratio.is_square());
    assert_eq!(image.corrected_dimensions(), (10, 20));
    image.aspect_ratio = PixelAspectRatio { pan: 3, pad: 2 };
    assert!(!image.aspect_ratio.is_square());
    assert_eq!(image.corrected_dimensions(), (15, 20));
    image.aspect_ratio = PixelAspectRatio { pan: 2, pad: 5 };
    assert_eq!(image.corrected_dimensions(), (10, 50));
    assert_eq!(PixelAspectRatio::default(), PixelAspectRatio { pan: 1, pad: 1 });
}

#[test]
fn next_band_overflow_is_reported() {
    let mut decoder = SixelDecoder::new(DcsSettings::new(None, None, None)).unwrap();
    decoder.pos_y = usize::MAX - 3;
    assert!(matches!(decoder.process(b"-"), Err(SixelError::IntegerOverflow)));
}

#[test]
fn payload_without_envelope_takes_the_given_parameters() {
    let (pixels, width, height) = sixel_decode_from_dcs(None, Some(1), None, b"#2A\x1b\\").unwrap();
    assert_eq!((width, height), (1, 6));
    assert_eq!(&pixels[0..4], &[0, 0, 0, 0]);
    assert_eq!(&pixels[4..8], &[204, 33, 33, 255]);
}

#[test]
fn emitter_writes_runs_and_passes() {
    let palette = [Rgb { r: 255, g: 0, b: 0 }, Rgb { r: 0, g: 128, b: 255 }];
    // 5 x 2: the first row all colour 0; the second row colour 1 but for a
    // transparent pixel at its end.
    let indices = [0u8, 0, 0, 0, 0, 1, 1, 1, 1, 1];
    let mut opaque = [true; 10];
    opaque[9] = false;
    let bytes = emit_sixel(&palette, &indices, &opaque, 5, 2, true);
    assert_eq!(
        String::from_utf8(bytes).unwrap(),
        "\x1bP0;1;0q#0;2;100;0;0#1;2;0;50;100#0!5@$#1!4A?$-\x1b\\"
    );

    let text = encode_indexed_to_sixel(&palette, &indices, &[true; 10], 5, 2, false).unwrap();
    assert_eq!(text, "\x1bPq#0;2;100;0;0#1;2;0;50;100#0!5@$#1!5A$-\x1b\\");

    // Runs of up to three columns are written out.
    let short = emit_sixel(&palette, &[0, 0, 0, 1, 0, 0], &[true; 6], 6, 1, false);
    assert_eq!(
        String::from_utf8(short).unwrap(),
        "\x1bPq#0;2;100;0;0#1;2;0;50;100#0@@@?@@$#1???@??$-\x1b\\"
    );

    // Seven rows make two bands; a band without opaque pixels holds no pass.
    let lower_clear = [true, true, true, true, true, true, false];
    let tall = emit_sixel(&palette, &[1; 7], &lower_clear, 1, 7, true);
    assert_eq!(
        String::from_utf8(tall).unwrap(),
        "\x1bP0;1;0q#0;2;100;0;0#1;2;0;50;100#1~$--\x1b\\"
    );
}

#[test]
fn encoder_reports_each_error() {
    let rgba = vec![0u8; 16];
    let opts = EncodeOptions::default();
    assert!(matches!(
        sixel_encode(&rgba, 0, 4, &opts),
        Err(SixelError::InvalidDimensions { width: 0, height: 4 })
    ));
    assert!(matches!(
        sixel_encode(&rgba, 4, 0, &opts),
        Err(SixelError::InvalidDimensions { width: 4, height: 0 })
    ));
    assert!(matches!(
        sixel_encode(&rgba, 1000001, 1, &opts),
        Err(SixelError::InvalidDimensions { width: 1000001, height: 1 })
    ));
    assert!(matches!(
        sixel_encode(&rgba, 8192, 8193, &opts),
        Err(SixelError::InvalidDimensions { width: 8192, height: 8193 })
    ));
    assert!(matches!(
        sixel_encode(&rgba, 10, 10, &opts),
        Err(SixelError::BufferSizeMismatch { expected: 400, actual: 16 })
    ));
    // A palette of one colour and an index that points past it.
    match encode_quantized(&rgba, 2, 2, &[1, 2, 3], &[0, 0, 1, 0]) {
        Err(SixelError::Quantization(message)) => {
            assert_eq!(message, "quantizer returned an unusable image")
        }
        _ => panic!("an index outside the palette must be refused"),
    }
    assert!(matches!(
        encode_quantized(&rgba, 2, 2, &[1, 2], &[0, 0, 0, 0]),
        Err(SixelError::Quantization(_))
    ));
    assert!(matches!(
        encode_quantized(&rgba, 2, 2, &[1, 2, 3], &[0, 0, 0]),
        Err(SixelError::Quantization(_))
    ));
}

#[test]
fn encode_quantized_writes_the_given_palette() {
    let rgba = [9u8, 9, 9, 255, 9, 9, 9, 255, 9, 9, 9, 0, 9, 9, 9, 255];
    let text = encode_quantized(&rgba, 2, 2, &[255, 255, 255, 0, 0, 0], &[0, 1, 1, 0]).unwrap();
    assert_eq!(text, "\x1bP0;1;0q#0;2;100;100;100#1;2;0;0;0#0@A$#1?@$-\x1b\\");
    let image = sixel_decode(text.as_bytes()).unwrap();
    assert_eq!((image.width, image.height), (2, 6));
    assert_eq!(pixel(&image, 0, 0), [255, 255, 255, 255]);
    assert_eq!(pixel(&image, 1, 0), [0, 0, 0, 255]);
    assert_eq!(pixel(&image, 0, 1), [0, 0, 0, 0]);
    assert_eq!(pixel(&image, 1, 1), [255, 255, 255, 255]);
    assert_eq!(pixel(&image, 0, 5), [0, 0, 0, 0]);
}

#[test]
fn quantizer_keeps_two_colours_apart() {
    let mut rgba = Vec::new();
    for i in 0..12 {
        if i % 2 == 0 {
            rgba.extend_from_slice(&[255, 0, 0, 255]);
        } else {
            rgba.extend_from_slice(&[0, 0, 255, 255]);
        }
    }
    for method in [QuantizeMethod::Wu, QuantizeMethod::Kmeans] {
        for dither in [true, false] {
            let opts = EncodeOptions { max_colors: 2, quantize_method: method, dither };
            let text = sixel_encode(&rgba, 2, 6, &opts).unwrap();
            let image = sixel_decode(text.as_bytes()).unwrap();
            assert_eq!((image.width, image.height), (2, 6));
            for y in 0..6 {
                let left = pixel(&image, 0, y);
                let right = pixel(&image, 1, y);
                assert!(left[0] > 200 && left[2] < 50, "left pixel {:?}", left);
                assert!(right[0] < 50 && right[2] > 200, "right pixel {:?}", right);
            }
        }
    }
}

#[test]
fn palette_size_is_limited_to_the_option() {
    let mut rgba = Vec::new();
    for i in 0..64usize {
        rgba.extend_from_slice(&[(i * 4) as u8, (255 - i * 4) as u8, (i * 2) as u8, 255]);
    }
    let opts = EncodeOptions { max_colors: 4, quantize_method: QuantizeMethod::Wu, dither: false };
    let text = sixel_encode(&rgba, 8, 8, &opts).unwrap();
    let definitions = text.matches(";2;").count();
    assert!(definitions >= 1 && definitions <= 4, "{} colours defined", definitions);
    let defaults = EncodeOptions::default();
    assert_eq!(defaults.max_colors, 256);
    assert_eq!(defaults.quantize_method, QuantizeMethod::Wu);
    assert!(defaults.dither);
}

#[test]
fn decoded_pixels_are_the_palette_colours_read_back() {
    // Every channel is written in percent and read back: at most two levels
    // lower, never higher.
    let flat: Vec<u8> = vec![0, 1, 2, 127, 128, 129, 253, 254, 255, 77, 200, 13];
    let width = 5;
    let height = 8;
    let indices: Vec<u8> = (0..width * height).map(|p| (p * 7 % 4) as u8).collect();
    let rgba = solid(width, height, [1, 2, 3, 255]);
    let text = encode_quantized(&rgba, width, height, &flat, &indices).unwrap();
    let image = sixel_decode(text.as_bytes()).unwrap();
    assert_eq!((image.width, image.height), (5, 12));
    for y in 0..height {
        for x in 0..width {
            let chosen = indices[y * width + x] as usize;
            let got = pixel(&image, x, y);
            for channel in 0..3 {
                let want = flat[3 * chosen + channel] as i32;
                let have = got[channel] as i32;
                assert!(want - 2 <= have && have <= want, "{} read back as {}", want, have);
            }
            assert_eq!(got[3], 255);
        }
    }
    assert_eq!(pixel(&image, 0, 0), [0, 0, 0, 255]);
    assert_eq!(pixel(&image, 1, 0), [77, 199, 13, 255]);
    // Below the image the canvas has the colour of register 0.
    for y in height..12 {
        for x in 0..width {
            assert_eq!(pixel(&image, x, y), [0, 0, 0, 255]);
        }
    }
}

#[test]
fn smallest_image_is_encoded_by_both_methods() {
    for method in [QuantizeMethod::Wu, QuantizeMethod::Kmeans] {
        for dither in [true, false] {
            for max_colors in [0u16, 2, 256, 60000] {
                let opts = EncodeOptions { max_colors, quantize_method: method, dither };
                let text = sixel_encode(&[0, 255, 0, 255], 1, 1, &opts).unwrap();
                let image = sixel_decode(text.as_bytes()).unwrap();
                assert_eq!((image.width, image.height), (1, 6));
                let got = pixel(&image, 0, 0);
                assert!(got[0] < 8 && got[1] > 247 && got[2] < 8, "green came back as {:?}", got);
            }
        }
    }
}

#[test]
fn same_input_gives_the_same_text() {
    let mut rgba = Vec::new();
    for i in 0..36usize {
        rgba.extend_from_slice(&[(i * 7) as u8, (i * 5) as u8, (255 - i * 3) as u8, 255]);
    }
    for method in [QuantizeMethod::Wu, QuantizeMethod::Kmeans] {
        let opts = EncodeOptions { max_colors: 8, quantize_method: method, dither: true };
        let first = sixel_encode(&rgba, 6, 6, &opts).unwrap();
        let second = sixel_encode(&rgba, 6, 6, &opts).unwrap();
        assert_eq!(first, second);
    }
}

#[test]
fn errors_say_what_went_wrong() {
    assert_eq!(
        SixelError::InvalidDimensions { width: 0, height: 12 }.message(),
        "invalid dimensions: 0x12"
    );
    assert_eq!(
        SixelError::BufferSizeMismatch { expected: 400, actual: 16 }.message(),
        "buffer size mismatch: expected 400 bytes, got 16"
    );
    assert_eq!(
        SixelError::InvalidData("malformed SIXEL data".to_string()).message(),
        "invalid SIXEL data: malformed SIXEL data"
    );
    assert_eq!(
        SixelError::NoSixelData.message(),
        "no SIXEL data found (missing DCS introducer)"
    );
    assert_eq!(
        SixelError::Quantization("no palette".to_string()).message(),
        "quantization error: no palette"
    );
    assert_eq!(SixelError::IntegerOverflow.message(), "integer overflow");
    match sixel_decode(b"\x1bP\x1b") {
        Err(e) => assert_eq!(e.message(), "invalid SIXEL data: malformed SIXEL data"),
        Ok(_) => panic!("ESC among the parameters must be refused"),
    }
}
