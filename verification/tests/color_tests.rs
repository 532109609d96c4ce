use icy_sixel::canvas::{fill_rgba_span, Canvas};
use icy_sixel::color::{hls_to_rgb, pack_rgb, percent_to_byte};
use icy_sixel::emitter::write_number;
use icy_sixel::palette::Palette;
use icy_sixel::params::{collect_params, read_number};

#[test]
fn percent_rounds_to_the_nearest_level() {
    assert_eq!(percent_to_byte(0), 0);
    assert_eq!(percent_to_byte(1), 3);
    assert_eq!(percent_to_byte(13), 33);
    assert_eq!(percent_to_byte(20), 51);
    assert_eq!(percent_to_byte(50), 128);
    assert_eq!(percent_to_byte(80), 204);
    assert_eq!(percent_to_byte(100), 255);
    assert_eq!(percent_to_byte(-7), 0);
    assert_eq!(percent_to_byte(101), 255);
    assert_eq!(percent_to_byte(i32::MAX), 255);
    assert_eq!(percent_to_byte(i32::MIN), 0);
}

#[test]
fn percent_round_trip_loses_at_most_two_levels() {
    for level in 0..=255i32 {
        let back = percent_to_byte(level * 100 / 255) as i32;
        assert!(level - 2 <= back && back <= level, "{} came back as {}", level, back);
    }
}

#[test]
fn packed_colour_has_red_on_top() {
    assert_eq!(pack_rgb(0x12, 0x34, 0x56), 0x123456);
    assert_eq!(pack_rgb(255, 255, 255), 0xffffff);
    assert_eq!(pack_rgb(0, 0, 0), 0);
}

#[test]
fn hls_follows_the_rotated_wheel() {
    assert_eq!(hls_to_rgb(0, 50, 100), [0, 0, 255]);
    assert_eq!(hls_to_rgb(120, 50, 100), [255, 0, 0]);
    assert_eq!(hls_to_rgb(240, 50, 100), [0, 255, 0]);
    assert_eq!(hls_to_rgb(360, 50, 100), [0, 0, 255]);
    assert_eq!(hls_to_rgb(60, 50, 100), [255, 0, 255]);
    assert_eq!(hls_to_rgb(180, 50, 100), [255, 255, 0]);
    assert_eq!(hls_to_rgb(120, 25, 100), [128, 0, 0]);
    assert_eq!(hls_to_rgb(120, 75, 100), [255, 128, 128]);
    assert_eq!(hls_to_rgb(120, 50, 50), [191, 64, 64]);
    assert_eq!(hls_to_rgb(90, 50, 100), [255, 0, 128]);
    // No saturation gives the gray of the lightness, whatever the hue.
    assert_eq!(hls_to_rgb(77, 50, 0), [128, 128, 128]);
    assert_eq!(hls_to_rgb(77, 100, -3), [255, 255, 255]);
    // Lightness and saturation are percentages; the hue wraps.
    assert_eq!(hls_to_rgb(120, 500, 100), [255, 255, 255]);
    assert_eq!(hls_to_rgb(120, -4, 100), [0, 0, 0]);
    assert_eq!(hls_to_rgb(120, 50, 900), [255, 0, 0]);
    assert_eq!(hls_to_rgb(120 + 720, 50, 100), [255, 0, 0]);
    assert_eq!(hls_to_rgb(120 - 360, 50, 100), [255, 0, 0]);
    assert_eq!(hls_to_rgb(i32::MAX, 50, 100), hls_to_rgb(i32::MAX % 360, 50, 100));
}

#[test]
fn default_palette_has_base_cube_and_grays() {
    let palette = Palette::new();
    assert_eq!(palette.rgb_bytes(0), [0, 0, 0, 255]);
    assert_eq!(palette.rgb_bytes(1), [51, 51, 204, 255]);
    assert_eq!(palette.rgb_bytes(2), [204, 33, 33, 255]);
    assert_eq!(palette.rgb_bytes(3), [51, 204, 51, 255]);
    assert_eq!(palette.rgb_bytes(7), [135, 135, 135, 255]);
    assert_eq!(palette.rgb_bytes(15), [204, 204, 204, 255]);
    // The cube: red counts slowest, blue fastest, in steps of 20 percent.
    assert_eq!(palette.rgb_bytes(16), [0, 0, 0, 255]);
    assert_eq!(palette.rgb_bytes(17), [0, 0, 51, 255]);
    assert_eq!(palette.rgb_bytes(16 + 6), [0, 51, 0, 255]);
    assert_eq!(palette.rgb_bytes(16 + 36), [51, 0, 0, 255]);
    assert_eq!(palette.rgb_bytes(16 + 2 * 36 + 3 * 6 + 4), [102, 153, 204, 255]);
    assert_eq!(palette.rgb_bytes(231), [255, 255, 255, 255]);
    // The gray ramp.
    assert_eq!(palette.rgb_bytes(232), [0, 0, 0, 255]);
    assert_eq!(palette.rgb_bytes(233), [10, 10, 10, 255]);
    assert_eq!(palette.rgb_bytes(255), [255, 255, 255, 255]);
    // Indices past the end read the last register.
    assert_eq!(palette.rgb_bytes(256), palette.rgb_bytes(255));
    assert_eq!(palette.rgb_bytes(usize::MAX), palette.rgb_bytes(255));
}

#[test]
fn palette_registers_can_be_set() {
    let mut palette = Palette::new();
    palette.set_rgb_percent(5, 100, 50, 0);
    assert_eq!(palette.rgb_bytes(5), [255, 128, 0, 255]);
    palette.set_hls(6, 120, 50, 100);
    assert_eq!(palette.rgb_bytes(6), [255, 0, 0, 255]);
    let before = palette.rgb_bytes(255);
    palette.set_rgb_percent(256, 0, 0, 0);
    palette.set_hls(300, 0, 0, 0);
    assert_eq!(palette.rgb_bytes(255), before);
}

#[test]
fn fill_repeats_the_colour() {
    let mut buf = [9u8; 11];
    fill_rgba_span(&mut buf, [1, 2, 3, 4]);
    assert_eq!(buf, [1, 2, 3, 4, 1, 2, 3, 4, 1, 2, 3]);
    let mut empty: [u8; 0] = [];
    fill_rgba_span(&mut empty, [1, 2, 3, 4]);
    let mut long = vec![0u8; 4 * 100];
    fill_rgba_span(&mut long, [5, 6, 7, 8]);
    for (i, byte) in long.iter().enumerate() {
        assert_eq!(*byte, [5, 6, 7, 8][i % 4]);
    }
}

#[test]
fn canvas_grows_and_keeps_what_was_drawn() {
    let mut canvas = Canvas::new([1, 2, 3, 255]);
    assert_eq!((canvas.width, canvas.height), (1, 1));
    assert_eq!(canvas.data, vec![1, 2, 3, 255]);

    canvas.paint_span(0, 0, 5, [9, 9, 9, 255]);
    assert_eq!(canvas.data, vec![9, 9, 9, 255]);

    canvas.ensure_visible(3, 2, [0, 0, 0, 0]).unwrap();
    assert_eq!((canvas.width, canvas.height), (3, 2));
    assert_eq!(
        canvas.data,
        vec![9, 9, 9, 255, 0, 0, 0, 0, 0, 0, 0, 0, 0, 0, 0, 0, 0, 0, 0, 0, 0, 0, 0, 0]
    );

    // Growing never shrinks a side.
    canvas.ensure_visible(1, 3, [7, 7, 7, 7]).unwrap();
    assert_eq!((canvas.width, canvas.height), (3, 3));
    assert_eq!(&canvas.data[24..28], &[7, 7, 7, 7]);
    canvas.ensure_visible(2, 2, [8, 8, 8, 8]).unwrap();
    assert_eq!((canvas.width, canvas.height), (3, 3));

    // A span is cut at the right edge and left out below the last row.
    canvas.paint_span(1, 1, 10, [4, 5, 6, 255]);
    assert_eq!(&canvas.data[12..16], &[0, 0, 0, 0]);
    assert_eq!(&canvas.data[16..24], &[4, 5, 6, 255, 4, 5, 6, 255]);
    let before = canvas.data.clone();
    canvas.paint_span(3, 0, 2, [1, 1, 1, 1]);
    canvas.paint_span(0, 3, 2, [1, 1, 1, 1]);
    canvas.paint_span(0, 0, 0, [1, 1, 1, 1]);
    assert_eq!(canvas.data, before);

    assert!(canvas.ensure_visible(8192, 8193, [0, 0, 0, 0]).is_err());
    assert_eq!((canvas.width, canvas.height), (3, 3));

    canvas.resize(2, 1, [0, 0, 0, 0]);
    assert_eq!(canvas.data, vec![9, 9, 9, 255, 0, 0, 0, 0]);
}

#[test]
fn numbers_are_read_and_written_in_decimal() {
    assert_eq!(read_number(b"123~", 0), (123, 3));
    assert_eq!(read_number(b"!007;", 1), (7, 3));
    assert_eq!(read_number(b"abc", 0), (0, 0));
    assert_eq!(read_number(b"12", 2), (0, 0));
    assert_eq!(read_number(b"12", 9), (0, 0));
    assert_eq!(read_number(b"99999999999999999999999999", 0), (usize::MAX, 26));

    for n in [0usize, 7, 10, 99, 100, 65535, 1234567890] {
        let mut out = vec![b'x'];
        write_number(&mut out, n);
        assert_eq!(String::from_utf8(out).unwrap(), format!("x{}", n));
    }
}

#[test]
fn parameter_lists_are_collected() {
    let mut storage = [-1i32; 5];
    assert_eq!(collect_params(b"#1;2;3~", 1, &mut storage), (5, 3));
    assert_eq!(storage, [1, 2, 3, -1, -1]);

    let mut storage = [-1i32; 5];
    assert_eq!(collect_params(b";~", 0, &mut storage), (1, 2));
    assert_eq!(storage, [0, 0, -1, -1, -1]);

    let mut storage = [-1i32; 5];
    assert_eq!(collect_params(b"7;", 0, &mut storage), (2, 2));
    assert_eq!(storage, [7, 0, -1, -1, -1]);

    let mut storage = [-1i32; 5];
    assert_eq!(collect_params(b"~", 0, &mut storage), (0, 0));
    assert_eq!(storage, [-1; 5]);

    // Parameters that do not fit are read and dropped.
    let mut storage = [-1i32; 2];
    assert_eq!(collect_params(b"1;2;3;4x", 0, &mut storage), (7, 2));
    assert_eq!(storage, [1, 2]);

    let mut storage = [-1i32; 1];
    assert_eq!(collect_params(b"99999999999", 0, &mut storage), (11, 1));
    assert_eq!(storage, [i32::MAX]);
}
