//! What holds of every image that the decoder gives, whatever the
//! bytes.

use crate::canvas::{
    ensure_visible_spec, larger, lemma_reshape_wf, lemma_single_pixel_wf, raster_opaque,
    raster_wf,
};
use crate::dcs::{parse_spec, pixel_aspect_spec, strip_terminator, DcsSettings};
use crate::decoder::{
    background_of, decode_payload_spec, decode_spec, decoder_wf, final_height, final_width,
    finalize_spec, initial_state, leading_params, lemma_paint_column, raster_shape, raster_spec,
    raster_target_height, raster_target_width, run_spec, sixel_spec, step_spec, DecoderState,
};
use crate::limits::{MAX_PIXELS, SIXEL_HEIGHT_LIMIT, SIXEL_WIDTH_LIMIT};
use crate::palette::{default_registers, opaque_pixel, transparent_pixel};
use crate::params::{
    capped, digit_value, digits_end, is_digit, lemma_decimal_value_nonnegative,
    lemma_digits_end_bounds, lemma_params_end_bounds, param_fields, param_list,
};
use vstd::prelude::*;

verus! {

/// Every parameter of a list lies between zero and the limit.
pub proof fn lemma_param_fields_range(data: Seq<u8>, idx: int, current: int, limit: int)
    requires
        0 <= current <= limit,
    ensures
        forall|k: int|
            0 <= k < param_fields(data, idx, current, limit).len() ==> 0 <= #[trigger] param_fields(
                data,
                idx,
                current,
                limit,
            )[k] <= limit,
    decreases data.len() - idx,
{
    let all = param_fields(data, idx, current, limit);
    if 0 <= idx < data.len() && is_digit(data[idx]) {
        let next = capped(current * 10 + digit_value(data[idx]), limit);
        lemma_param_fields_range(data, idx + 1, next, limit);
        let rest = param_fields(data, idx + 1, next, limit);
        assert(all == rest);
        assert forall|k: int| 0 <= k < all.len() implies 0 <= #[trigger] all[k] <= limit by {
            assert(all[k] == rest[k]);
        }
    } else if 0 <= idx < data.len() && data[idx] == 0x3b {
        lemma_param_fields_range(data, idx + 1, 0, limit);
        let rest = param_fields(data, idx + 1, 0, limit);
        assert forall|k: int| 0 <= k < all.len() implies 0 <= #[trigger] all[k] <= limit by {
            if k > 0 {
                assert(all[k] == rest[k - 1]);
            }
        }
    } else {
        assert(all =~= seq![current]);
    }
}

/// The parameters that a command takes lie between zero and `i32::MAX`.
pub proof fn lemma_leading_params_range(data: Seq<u8>, start: int, count: int)
    requires
        0 <= count,
    ensures
        forall|k: int|
            0 <= k < leading_params(data, start, count).len() ==> 0 <= #[trigger] leading_params(
                data,
                start,
                count,
            )[k] <= i32::MAX,
{
    lemma_param_fields_range(data, start, 0, i32::MAX as int);
    let all = param_list(data, start, i32::MAX as int);
    let taken = leading_params(data, start, count);
    assert forall|k: int| 0 <= k < taken.len() implies 0 <= #[trigger] taken[k] <= i32::MAX by {
        assert(taken[k] == all[k]);
    }
}

/// The state before the first byte is well formed, whatever the
/// parameters of the Device Control String.
pub proof fn lemma_initial_wf(settings: DcsSettings)
    ensures
        decoder_wf(initial_state(settings)),
        initial_state(settings).transparent_mode == (settings.zero_color == Some(1u16)),
{
    let s = initial_state(settings);
    let first = opaque_pixel(default_registers()[0] as int);
    assert(first.len() == 4 && first[3] == 0xFFu8);
    assert(transparent_pixel().len() == 4);
    lemma_single_pixel_wf(first);
    lemma_single_pixel_wf(transparent_pixel());
    let aspect = pixel_aspect_spec(settings.aspect_ratio, settings.grid_size);
    assert(1 <= aspect.0 <= 13107);
    assert(1 <= aspect.1 <= 32767);
}

/// A canvas grown within the limits stays well formed, and opaque
/// unless the mode is transparent.
pub proof fn lemma_grown_wf(s: DecoderState, width: int, height: int)
    requires
        decoder_wf(s),
        0 <= width <= SIXEL_WIDTH_LIMIT,
        0 <= height <= SIXEL_HEIGHT_LIMIT,
    ensures
        ensure_visible_spec(s.canvas, width, height, background_of(s)) matches Some(grown)
            ==> raster_wf(grown) && (!s.transparent_mode ==> raster_opaque(grown)),
{
    let background = background_of(s);
    assert(background.len() == 4);
    if !(width <= s.canvas.width && height <= s.canvas.height) && larger(width, s.canvas.width)
        * larger(height, s.canvas.height) <= MAX_PIXELS {
        lemma_reshape_wf(
            s.canvas,
            larger(width, s.canvas.width),
            larger(height, s.canvas.height),
            background,
        );
    }
}

/// A six-pixel column keeps the state well formed.
pub proof fn lemma_sixel_wf(s: DecoderState, ch: u8)
    requires
        decoder_wf(s),
        0x3f <= ch <= 0x7e,
    ensures
        sixel_spec(s, ch) matches Ok(t) ==> decoder_wf(t) && t.transparent_mode
            == s.transparent_mode,
{
    let span = larger(s.repeat, 1);
    let width_needed = s.pos_x + span;
    let height_needed = s.pos_y + 6;
    if width_needed <= SIXEL_WIDTH_LIMIT && height_needed <= SIXEL_HEIGHT_LIMIT {
        lemma_grown_wf(s, width_needed, height_needed);
        match ensure_visible_spec(s.canvas, width_needed, height_needed, background_of(s)) {
            Some(grown) => {
                lemma_paint_column(grown, s.pos_y, s.pos_x, span, ch - 0x3f, s.current_color);
            },
            None => {},
        }
    }
}

/// A raster-attributes command keeps the state well formed.
pub proof fn lemma_raster_wf(s: DecoderState, params: Seq<int>)
    requires
        decoder_wf(s),
        forall|k: int| 0 <= k < params.len() ==> 0 <= #[trigger] params[k] <= i32::MAX,
    ensures
        raster_spec(s, params) matches Ok(t) ==> decoder_wf(t) && t.transparent_mode
            == s.transparent_mode,
{
    let shaped = raster_shape(s, params);
    let target_width = raster_target_width(s, params);
    let target_height = raster_target_height(s, params);
    assert(decoder_wf(shaped));
    if (target_width > 0 || target_height > 0) && larger(target_width, 1) <= SIXEL_WIDTH_LIMIT
        && larger(target_height, 1) <= SIXEL_HEIGHT_LIMIT {
        lemma_grown_wf(shaped, larger(target_width, 1), larger(target_height, 1));
    }
}

/// Every command keeps the state well formed and the mode as it is,
/// and the next command begins after it, within the data.
pub proof fn lemma_step_wf(s: DecoderState, data: Seq<u8>, idx: int)
    requires
        decoder_wf(s),
        0 <= idx < data.len(),
    ensures
        step_spec(s, data, idx) matches Ok(next) ==> decoder_wf(next.0) && idx < next.1
            <= data.len() && next.0.transparent_mode == s.transparent_mode,
{
    let b = data[idx];
    lemma_digits_end_bounds(data, idx + 1);
    lemma_params_end_bounds(data, idx + 1);
    if b == 0x21 {
        lemma_decimal_value_nonnegative(data, idx + 1, digits_end(data, idx + 1));
    } else if b == 0x23 {
        lemma_leading_params_range(data, idx + 1, 5);
    } else if b == 0x22 {
        lemma_leading_params_range(data, idx + 1, 4);
        lemma_raster_wf(s, leading_params(data, idx + 1, 4));
    } else if 0x3f <= b <= 0x7e {
        lemma_sixel_wf(s, b);
    }
}

/// The state at the end of a payload is well formed, and in the mode
/// of the beginning.
pub proof fn lemma_run_wf(s: DecoderState, data: Seq<u8>, idx: int)
    requires
        decoder_wf(s),
        0 <= idx,
    ensures
        run_spec(s, data, idx) matches Ok(t) ==> decoder_wf(t) && t.transparent_mode
            == s.transparent_mode,
    decreases data.len() - idx,
{
    if idx < data.len() && data[idx] != 0x1b && data[idx] != 0x9c {
        lemma_step_wf(s, data, idx);
        match step_spec(s, data, idx) {
            Ok(next) => {
                lemma_run_wf(next.0, data, next.1);
            },
            Err(_) => {},
        }
    }
}

/// Size, opacity and cap: every image that the decoder gives has at
/// least one pixel and at most `64 * 1024 * 1024`, four bytes for each
/// of them, and, unless the Device Control String asks for a transparent
/// background, full opacity in every pixel.
pub proof fn lemma_decoded_shape(data: Seq<u8>)
    ensures
        decode_spec(data) matches Ok(image) ==> {
            &&& image.width >= 1
            &&& image.height >= 1
            &&& image.width <= SIXEL_WIDTH_LIMIT
            &&& image.height <= SIXEL_HEIGHT_LIMIT
            &&& image.width * image.height <= MAX_PIXELS
            &&& image.pixels.len() == image.width * image.height * 4
            &&& image.pan >= 1
            &&& image.pad >= 1
            &&& !image.has_transparency ==> forall|i: int|
                0 <= i < image.pixels.len() && i % 4 == 3 ==> image.pixels[i] == 0xFFu8
        },
{
    match parse_spec(data) {
        Ok(env) => {
            let settings = DcsSettings {
                aspect_ratio: env.aspect_ratio,
                zero_color: env.zero_color,
                grid_size: env.grid_size,
            };
            lemma_payload_shape(settings, env.payload);
        },
        Err(_) => {},
    }
}

/// The raster that a payload draws has at least one pixel and at most
/// `64 * 1024 * 1024`, four bytes for each of them, and, unless the mode
/// is transparent, full opacity in every pixel.
pub proof fn lemma_payload_shape(settings: DcsSettings, payload: Seq<u8>)
    ensures
        decode_payload_spec(settings, payload) matches Ok(r) ==> raster_wf(r) && r.width
            <= SIXEL_WIDTH_LIMIT && r.height <= SIXEL_HEIGHT_LIMIT && (settings.zero_color
            != Some(1u16) ==> raster_opaque(r)),
        1 <= pixel_aspect_spec(settings.aspect_ratio, settings.grid_size).0,
        1 <= pixel_aspect_spec(settings.aspect_ratio, settings.grid_size).1,
{
    lemma_initial_wf(settings);
    let body = strip_terminator(payload);
    lemma_run_wf(initial_state(settings), body, 0);
    match run_spec(initial_state(settings), body, 0) {
        Ok(t) => {
            let width = final_width(t);
            let height = final_height(t);
            if finalize_spec(t) is Ok {
                assert(background_of(t).len() == 4);
                lemma_reshape_wf(t.canvas, width, height, background_of(t));
            }
        },
        Err(_) => {},
    }
}

} // verus!
