use icy_sixel::apply::{sixel_quant_apply_palette, DiffusionMethod};
use icy_sixel::histogram::{
    computeColorMapFromInput, computeHistogram, sixel_helper_compute_depth,
    sixel_quant_make_palette, ColorChoosingMethod, FindLargestDim, PixelFormat, Quality,
};
use icy_sixel::quant::{
    computeHash, diffuse_atkinson, diffuse_burkes, diffuse_fs, diffuse_jajuni, diffuse_none,
    diffuse_stucki, error_diffuse, lookup_fast, lookup_mono_darkbg, lookup_mono_lightbg,
    lookup_normal, Tuple,
};
use icy_sixel::SixelError;
use std::collections::HashMap;

#[test]
fn hash_takes_five_bits_of_each_channel() {
    assert_eq!(computeHash(&[255, 255, 255], 0, 3), 32767);
    assert_eq!(computeHash(&[8, 16, 24], 0, 3), (1 << 10) | (2 << 5) | 3);
    assert_eq!(computeHash(&[0, 0, 0, 248, 0, 7], 3, 3), 31 << 10);
    assert_eq!(computeHash(&[200], 0, 1), 25);
    assert_eq!(computeHash(&[1, 2, 3], 0, 0), 0);
    assert_eq!(computeHash(&[1, 2, 3], 7, -2), 0);
}

#[test]
fn error_share_is_added_and_limited() {
    let mut data = [100u8, 0, 0, 250, 0, 0, 3, 0, 0];
    error_diffuse(&mut data, 0, 3, 16, 7, 16);
    assert_eq!(data[0], 107);
    error_diffuse(&mut data, 1, 3, 100, 7, 16);
    assert_eq!(data[3], 255);
    error_diffuse(&mut data, 2, 3, -100, 7, 16);
    assert_eq!(data[6], 0);
    // Shares round toward zero.
    let mut one = [10u8];
    error_diffuse(&mut one, 0, 1, -9, 1, 8);
    assert_eq!(one[0], 9);
    error_diffuse(&mut one, 0, 1, -7, 1, 8);
    assert_eq!(one[0], 9);
    error_diffuse(&mut one, 0, 1, 15, 1, 8);
    assert_eq!(one[0], 10);
}

fn plane(width: usize, height: usize) -> Vec<u8> {
    vec![100u8; width * height]
}

#[test]
fn floyd_steinberg_spreads_to_four_neighbours() {
    let mut data = plane(3, 3);
    diffuse_fs(&mut data, 3, 3, 1, 1, 1, 16);
    assert_eq!(data, vec![100, 100, 100, 100, 100, 107, 103, 105, 101]);
    // Nothing leaves the last column or the last row.
    let mut edge = plane(3, 3);
    diffuse_fs(&mut edge, 3, 3, 2, 0, 1, 16);
    diffuse_fs(&mut edge, 3, 3, 0, 2, 1, 16);
    assert_eq!(edge, plane(3, 3));
    let mut none = plane(3, 3);
    diffuse_none(&mut none, 3, 3, 1, 1, 1, 16);
    assert_eq!(none, plane(3, 3));
}

#[test]
fn atkinson_spreads_an_eighth_to_six_neighbours() {
    let mut data = plane(4, 4);
    diffuse_atkinson(&mut data, 4, 4, 1, 1, 1, 16);
    assert_eq!(
        data,
        vec![100, 100, 100, 100, 100, 100, 102, 102, 102, 102, 102, 100, 100, 102, 100, 100]
    );
    let mut low = plane(4, 4);
    diffuse_atkinson(&mut low, 4, 4, 1, 2, 1, 16);
    assert_eq!(low, plane(4, 4));
}

#[test]
fn three_row_kernels_spread_to_twelve_neighbours() {
    let mut data = plane(5, 4);
    diffuse_jajuni(&mut data, 5, 4, 2, 0, 1, 48);
    assert_eq!(
        data,
        vec![
            100, 100, 100, 107, 105, //
            103, 105, 107, 105, 103, //
            101, 103, 105, 103, 101, //
            100, 100, 100, 100, 100,
        ]
    );
    let mut data = plane(5, 4);
    diffuse_stucki(&mut data, 5, 4, 2, 0, 1, 48);
    assert_eq!(
        data,
        vec![
            100, 100, 100, 108, 104, //
            102, 104, 108, 104, 102, //
            101, 102, 104, 102, 101, //
            100, 100, 100, 100, 100,
        ]
    );
    let mut data = plane(5, 4);
    diffuse_burkes(&mut data, 5, 4, 2, 0, 1, 16);
    assert_eq!(
        data,
        vec![
            100, 100, 100, 104, 102, //
            101, 102, 104, 102, 101, //
            100, 100, 100, 100, 100, //
            100, 100, 100, 100, 100,
        ]
    );
    // Too near the end nothing is spread.
    let mut late = plane(5, 4);
    diffuse_jajuni(&mut late, 5, 4, 3, 1, 1, 48);
    diffuse_stucki(&mut late, 5, 4, 3, 1, 1, 48);
    diffuse_burkes(&mut late, 5, 4, 3, 2, 1, 16);
    assert_eq!(late, plane(5, 4));
}

#[test]
fn lookups_find_the_nearest_colour() {
    let palette = [0u8, 0, 0, 255, 255, 255, 250, 10, 10, 250, 10, 10];
    let mut cache: Vec<u16> = vec![0; 32768];
    assert_eq!(lookup_normal(&[240, 20, 20], 3, &palette, 4, &mut cache, 1), 2);
    assert_eq!(lookup_normal(&[10, 10, 10], 3, &palette, 4, &mut cache, 1), 0);
    assert_eq!(lookup_normal(&[200, 200, 200], 3, &palette, 4, &mut cache, 1), 1);
    assert_eq!(lookup_normal(&[200, 200, 200], 3, &palette, 1, &mut cache, 1), 0);
    assert_eq!(lookup_normal(&[200, 200, 200], 3, &palette, 0, &mut cache, 1), -1);
    assert!(cache.iter().all(|&entry| entry == 0));
    // The first channel can weigh more than the others.
    let two = [100u8, 0, 0, 90, 40, 0];
    assert_eq!(lookup_normal(&[90, 0, 0], 3, &two, 2, &mut cache, 1), 0);
    assert_eq!(lookup_normal(&[90, 0, 0], 3, &two, 2, &mut cache, 100), 1);

    assert_eq!(lookup_fast(&[240, 20, 20], 3, &palette, 4, &mut cache, 1), 2);
    let slot = computeHash(&[240, 20, 20], 0, 3) as usize;
    assert_eq!(cache[slot], 3);
    // Once a cell is known the palette is not looked at again.
    cache[slot] = 2;
    assert_eq!(lookup_fast(&[241, 21, 21], 3, &palette, 4, &mut cache, 1), 1);

    assert_eq!(lookup_mono_darkbg(&[100, 100, 56], 3, &palette, 2, &mut cache, 1), 1);
    assert_eq!(lookup_mono_darkbg(&[100, 100, 55], 3, &palette, 2, &mut cache, 1), 0);
    assert_eq!(lookup_mono_lightbg(&[100, 100, 56], 3, &palette, 2, &mut cache, 1), 0);
    assert_eq!(lookup_mono_lightbg(&[100, 100, 55], 3, &palette, 2, &mut cache, 1), 1);
}

#[test]
fn palette_is_applied_in_scan_order() {
    let mut palette = vec![0u8, 0, 0, 255, 255, 255, 255, 0, 0];
    let source = vec![250u8, 5, 5, 10, 10, 10, 200, 220, 210, 130, 0, 0];
    for method in [DiffusionMethod::Off, DiffusionMethod::Auto] {
        let mut data = source.clone();
        let mut result = vec![99u8; 4];
        let colors = sixel_quant_apply_palette(
            &mut result,
            &mut data,
            2,
            2,
            3,
            &mut palette,
            3,
            method,
            false,
            false,
            1,
            None,
        )
        .unwrap();
        assert_eq!(colors, 3);
        assert_eq!(result, vec![2, 0, 1, 2]);
        assert_eq!(data, source);
    }

    // With a kernel the error of a pixel moves on to its neighbours. The
    // palette is black and white, so a pixel is white from a channel sum
    // of 256 on: the first pixel is, and hands -135 on in each channel.
    let mut data = vec![120u8, 120, 120, 120, 120, 120, 120, 120, 120, 120, 120, 120];
    let mut result = vec![99u8; 4];
    let mut bw = vec![0u8, 0, 0, 255, 255, 255];
    sixel_quant_apply_palette(
        &mut result,
        &mut data,
        2,
        2,
        3,
        &mut bw,
        2,
        DiffusionMethod::FS,
        false,
        false,
        1,
        None,
    )
    .unwrap();
    assert_eq!(result, vec![1, 0, 0, 1]);
    assert_eq!(data, vec![120, 120, 120, 36, 36, 36, 78, 78, 78, 112, 112, 112]);

    // The cached lookup fills the caller's cache.
    let mut cache: Vec<u16> = vec![0; 32768];
    let mut data = source.clone();
    let mut result = vec![99u8; 4];
    sixel_quant_apply_palette(
        &mut result,
        &mut data,
        2,
        2,
        3,
        &mut palette,
        3,
        DiffusionMethod::Off,
        true,
        false,
        1,
        Some(&mut cache),
    )
    .unwrap();
    assert_eq!(result, vec![2, 0, 1, 2]);
    assert_eq!(cache[computeHash(&source, 0, 3) as usize], 3);
    assert_eq!(cache[computeHash(&source, 3, 3) as usize], 1);

    // An ordered mask leaves the pixels as they are, but moves the pixel
    // that is looked up: pattern A takes 21 from the red of the last pixel,
    // which makes it black; pattern X adds 13, which keeps it red.
    for (method, last) in [(DiffusionMethod::ADither, 0u8), (DiffusionMethod::XDither, 2u8)] {
        let mut data = source.clone();
        let mut result = vec![99u8; 4];
        sixel_quant_apply_palette(
            &mut result,
            &mut data,
            2,
            2,
            3,
            &mut palette,
            3,
            method,
            false,
            false,
            1,
            None,
        )
        .unwrap();
        assert_eq!(data, source);
        assert_eq!(result, vec![2, 0, 1, last]);
    }
}

#[test]
fn black_and_white_palettes_use_the_threshold() {
    let mut data = vec![200u8, 200, 200, 10, 10, 10, 90, 90, 90, 80, 80, 80];
    let mut result = vec![99u8; 4];
    let mut dark = vec![0u8, 0, 0, 255, 255, 255];
    sixel_quant_apply_palette(
        &mut result,
        &mut data,
        4,
        1,
        3,
        &mut dark,
        2,
        DiffusionMethod::Off,
        false,
        false,
        1,
        None,
    )
    .unwrap();
    assert_eq!(result, vec![1, 0, 1, 0]);
    let mut light = vec![255u8, 255, 255, 0, 0, 0];
    sixel_quant_apply_palette(
        &mut result,
        &mut data,
        4,
        1,
        3,
        &mut light,
        2,
        DiffusionMethod::Off,
        false,
        false,
        1,
        None,
    )
    .unwrap();
    assert_eq!(result, vec![0, 1, 0, 1]);
}

#[test]
fn applying_a_palette_refuses_no_colours() {
    let mut palette = vec![0u8, 0, 0];
    let mut data = vec![1u8, 2, 3];
    let mut result = vec![7u8];
    let out = sixel_quant_apply_palette(
        &mut result,
        &mut data,
        1,
        1,
        3,
        &mut palette,
        0,
        DiffusionMethod::FS,
        false,
        false,
        1,
        None,
    );
    match out {
        Err(SixelError::InvalidData(message)) => assert_eq!(message, "invalid argument"),
        _ => panic!("no colours must be refused"),
    }
    assert_eq!(result, vec![7]);

    // Cutting the palette down to the colours in use leaves none for no pixels.
    let mut empty_data: Vec<u8> = Vec::new();
    let mut empty_result: Vec<u8> = Vec::new();
    let colors = sixel_quant_apply_palette(
        &mut empty_result,
        &mut empty_data,
        0,
        0,
        3,
        &mut palette,
        1,
        DiffusionMethod::Off,
        false,
        true,
        1,
        None,
    )
    .unwrap();
    assert_eq!(colors, 0);
    assert!(palette.is_empty());
}

fn entry(map: &HashMap<i32, Tuple>, key: i32) -> (i32, Vec<i32>) {
    let tuple = map.get(&key).unwrap();
    (tuple.value, tuple.tuple.clone())
}

#[test]
fn histogram_counts_the_cells_in_order_of_appearance() {
    // Four pixels: red twice, blue, then nearly the same red.
    let data = [255u8, 0, 0, 0, 0, 255, 255, 0, 0, 250, 3, 7];
    let map = computeHistogram(&data[..3], 3, 3, Quality::HIGH).unwrap();
    assert_eq!(map.len(), 1);
    assert_eq!(entry(&map, 0), (1, vec![248, 0, 0]));

    // Images under the sample limit are sampled every six pixels.
    let map = computeHistogram(&data, 12, 3, Quality::AUTO).unwrap();
    assert_eq!(map.len(), 1);
    assert_eq!(entry(&map, 0), (1, vec![248, 0, 0]));

    let mut long = Vec::new();
    for pixel in 0..13 {
        if pixel % 12 == 0 {
            long.extend_from_slice(&[0u8, 0, 255]);
        } else if pixel % 6 == 0 {
            long.extend_from_slice(&[0u8, 255, 8]);
        } else {
            long.extend_from_slice(&[9u8, 9, 9]);
        }
    }
    let map = computeHistogram(&long, 39, 3, Quality::LOW).unwrap();
    assert_eq!(map.len(), 2);
    assert_eq!(entry(&map, 0), (2, vec![0, 0, 248]));
    assert_eq!(entry(&map, 1), (1, vec![0, 248, 8]));

    let none = computeHistogram(&[], 0, 3, Quality::FULL).unwrap();
    assert!(none.is_empty());
}

#[test]
fn colour_map_is_histogram_and_fillers() {
    let data = [255u8, 0, 0];
    let mut map: HashMap<i32, Tuple> = HashMap::new();
    map.insert(9, Tuple { value: 5, tuple: vec![1, 2, 3] });
    let mut colors = -1;
    computeColorMapFromInput(
        &data,
        3,
        3,
        2,
        FindLargestDim::Auto,
        ColorChoosingMethod::Auto,
        Quality::AUTO,
        &mut map,
        &mut colors,
    )
    .unwrap();
    assert_eq!(colors, 1);
    assert_eq!(map.len(), 4);
    assert_eq!(entry(&map, 0), (1, vec![248, 0, 0]));
    assert_eq!(entry(&map, 1), (1, vec![3, 4, 5]));
    assert_eq!(entry(&map, 2), (2, vec![6, 7, 8]));
    assert_eq!(entry(&map, 9), (5, vec![1, 2, 3]));
}

#[test]
fn palette_is_made_from_the_colour_map() {
    let data = [255u8, 0, 0];
    let mut ncolors = -1;
    let mut origcolors = -1;
    let palette = sixel_quant_make_palette(
        &data,
        3,
        PixelFormat::RGB888,
        2,
        &mut ncolors,
        &mut origcolors,
        FindLargestDim::Auto,
        ColorChoosingMethod::Auto,
        Quality::AUTO,
    )
    .unwrap();
    assert_eq!((ncolors, origcolors), (1, 1));
    assert_eq!(palette, vec![248, 0, 0, 3, 4, 5, 6, 7, 8]);

    assert_eq!(sixel_helper_compute_depth(PixelFormat::RGB888), 3);
    assert_eq!(sixel_helper_compute_depth(PixelFormat::RGBA8888), 4);
    assert_eq!(sixel_helper_compute_depth(PixelFormat::RGB565), 2);
    assert_eq!(sixel_helper_compute_depth(PixelFormat::G8), 1);
    assert_eq!(sixel_helper_compute_depth(PixelFormat::PAL8), 1);
}
