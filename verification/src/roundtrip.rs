//! What the decoder makes of the encoder's output.

use crate::canvas::{
    ensure_visible_spec, larger, lemma_reshape_wf, lemma_single_pixel_wf, pixel_at, raster_wf,
};
use crate::color::{byte_to_percent_spec, percent_to_byte_spec};
use crate::dcs::{
    introducer_end, parse_spec, payload_end, scan_header, strip_terminator, terminator_at,
    DcsSettings, Envelope,
};
use crate::decoder::{
    any_bit_set, background_of, bit_set, color_spec, decode_payload_spec, decode_spec,
    decoder_wf, final_height, final_width, finalize_spec, guard_spec, initial_state,
    leading_params, lemma_paint_column, run_spec, sixel_spec, step_spec, DecoderState,
};
use crate::emitter::{
    band_begin, band_bytes, band_count, band_end, band_passes, bands_bytes, color_def,
    color_pass, color_used, column_mask, decimal_digits, emit_spec, encode_run, header_bytes,
    hit, indexed_of, indexed_wf, is_run_start, lemma_decimal_digits_ascii, lemma_run,
    palette_defs, pixel_is, run_extra, run_len, sweep, trailer_bytes, Indexed, Rgb,
};
use crate::encoder::{
    check_input_spec, effective_colors, encode_quantized_spec, encode_spec,
    has_transparency_spec, opacity_of, palette_of, rgb_of, usable, EncodeOptions,
};
use crate::error::ErrorView;
use crate::fidelity::{
    color_pixel, lemma_paint_column_pixel, lemma_painted_next_band, lemma_painted_next_color,
    lemma_painted_run, lemma_painted_start, lemma_painted_unused_color, lemma_reshape_pixel,
    painted, registers_after,
};
use crate::limits::{
    lemma_mul_bounded, MAX_PIXELS, MAX_REPEAT, SIXEL_HEIGHT_LIMIT, SIXEL_WIDTH_LIMIT,
};
use crate::palette::{default_registers, opaque_pixel, transparent_pixel};
use crate::params::{
    capped, decimal_value, digit_value, digits_end, is_digit, is_param_byte, param_fields,
    param_list, params_end,
};
use crate::quantize::quantized;
use vstd::prelude::*;

verus! {

/// Whether `data` holds the bytes `part` from index `at` on.
pub open spec fn has_at(data: Seq<u8>, at: int, part: Seq<u8>) -> bool {
    &&& 0 <= at
    &&& at + part.len() <= data.len()
    &&& forall|k: int| 0 <= k < part.len() ==> data[at + k] == #[trigger] part[k]
}

/// Data that holds two parts in a row holds each of them.
pub proof fn lemma_has_at_split(data: Seq<u8>, at: int, a: Seq<u8>, b: Seq<u8>)
    requires
        has_at(data, at, a + b),
    ensures
        has_at(data, at, a),
        has_at(data, at + a.len(), b),
{
    let ab = a + b;
    assert forall|k: int| 0 <= k < a.len() implies data[at + k] == #[trigger] a[k] by {
        assert(ab[k] == a[k]);
    }
    assert forall|k: int| 0 <= k < b.len() implies data[at + a.len() + k] == #[trigger] b[k] by {
        assert(ab[a.len() + k] == b[k]);
    }
}

/// A run of digits that ends before a byte that is no digit, or at the
/// end of the data, ends there.
pub proof fn lemma_digits_end_at(data: Seq<u8>, from: int, to: int)
    requires
        0 <= from <= to <= data.len(),
        forall|k: int| from <= k < to ==> is_digit(#[trigger] data[k]),
        to < data.len() ==> !is_digit(data[to]),
    ensures
        digits_end(data, from) == to,
    decreases to - from,
{
    if from < to {
        lemma_digits_end_at(data, from + 1, to);
    }
}

/// A run of digits and `;` that ends before a byte that is neither, or
/// at the end of the data, ends there.
pub proof fn lemma_params_end_at(data: Seq<u8>, from: int, to: int)
    requires
        0 <= from <= to <= data.len(),
        forall|k: int| from <= k < to ==> is_param_byte(#[trigger] data[k]),
        to < data.len() ==> !is_param_byte(data[to]),
    ensures
        params_end(data, from) == to,
    decreases to - from,
{
    if from < to {
        lemma_params_end_at(data, from + 1, to);
    }
}

/// The decimal digits of a number write that number.
pub proof fn lemma_decimal_value_of_digits(data: Seq<u8>, at: int, n: int)
    requires
        0 <= n,
        has_at(data, at, decimal_digits(n)),
    ensures
        decimal_value(data, at, at + decimal_digits(n).len()) == n,
        forall|k: int| at <= k < at + decimal_digits(n).len() ==> is_digit(#[trigger] data[k]),
    decreases n,
{
    let digits = decimal_digits(n);
    lemma_decimal_digits_ascii(n);
    assert forall|k: int| at <= k < at + digits.len() implies is_digit(#[trigger] data[k]) by {
        assert(data[at + (k - at)] == digits[k - at]);
    }
    let end = at + digits.len();
    assert(data[at + (digits.len() - 1)] == digits[digits.len() - 1]);
    if n < 10 {
        assert(decimal_value(data, at, at) == 0);
    } else {
        let head = decimal_digits(n / 10);
        assert(digits =~= head + seq![(0x30 + n % 10) as u8]);
        lemma_has_at_split(data, at, head, seq![(0x30 + n % 10) as u8]);
        lemma_decimal_value_of_digits(data, at, n / 10);
    }
}

/// Reading the decimal digits of a number as a parameter gives that
/// number as the parameter's value so far.
pub proof fn lemma_param_fields_of_digits(data: Seq<u8>, at: int, n: int, limit: int)
    requires
        0 <= n <= limit,
        has_at(data, at, decimal_digits(n)),
    ensures
        param_fields(data, at, 0, limit) == param_fields(
            data,
            at + decimal_digits(n).len(),
            n,
            limit,
        ),
    decreases n,
{
    let digits = decimal_digits(n);
    lemma_decimal_digits_ascii(n);
    let last = at + digits.len() - 1;
    assert(data[at + (digits.len() - 1)] == digits[digits.len() - 1]);
    if n < 10 {
        assert(is_digit(data[at]));
    } else {
        let head = decimal_digits(n / 10);
        assert(digits =~= head + seq![(0x30 + n % 10) as u8]);
        lemma_has_at_split(data, at, head, seq![(0x30 + n % 10) as u8]);
        lemma_param_fields_of_digits(data, at, n / 10, limit);
        assert(is_digit(data[last]));
        assert(digit_value(data[last]) == n % 10);
        assert(capped((n / 10) * 10 + n % 10, limit) == n);
    }
}

/// Whether the decoder takes an image `width` pixels wide and `bands`
/// bands high: it is within the limits of each side and of the whole.
pub open spec fn fits(width: int, bands: int) -> bool {
    &&& 1 <= width <= SIXEL_WIDTH_LIMIT
    &&& 1 <= bands
    &&& 6 * bands <= SIXEL_HEIGHT_LIMIT
    &&& width * (6 * bands) <= MAX_PIXELS
}

/// Whether the decoder stands at column `x` of band `band` of an image
/// `width` pixels wide, with `repeat` as its repeat count, no size
/// declared, and nothing drawn outside the image or below the band.
pub open spec fn in_band(s: DecoderState, width: int, band: int, x: int, repeat: int) -> bool {
    &&& decoder_wf(s)
    &&& s.repeat == repeat
    &&& s.target_width == 0
    &&& s.target_height == 0
    &&& s.pos_x == x
    &&& s.pos_y == 6 * band
    &&& s.canvas.width <= width
    &&& s.canvas.height <= 6 * band + 6
    &&& s.max_x <= width - 1
    &&& s.max_y <= 6 * band + 5
}

/// Whether `t` has drawn at least as far as `s`, in the same mode.
pub open spec fn follows(s: DecoderState, t: DecoderState) -> bool {
    &&& t.max_x >= s.max_x
    &&& t.max_y >= s.max_y
    &&& t.transparent_mode == s.transparent_mode
}

/// The pixel at `(px, py)` once `n` columns of the bits `mask` are
/// drawn from column `from` of a band on: the current colour where a
/// bit is set, else what was there, or the background where there was
/// nothing.
pub open spec fn drawn_pixel(
    s: DecoderState,
    from: int,
    n: int,
    band: int,
    mask: int,
    px: int,
    py: int,
) -> Seq<u8> {
    if from <= px < from + n && 6 * band <= py < 6 * band + 6 && bit_set(mask, py - 6 * band) {
        s.current_color
    } else if px < s.canvas.width && py < s.canvas.height {
        pixel_at(s.canvas, px, py)
    } else {
        background_of(s)
    }
}

/// Whether `t` is `s` after `n` columns of the bits `mask` were drawn
/// from column `from` of a band on: the canvas is grown to hold them
/// and has the pixels of [`drawn_pixel`]; colours and mode are as they
/// were.
pub open spec fn drew(
    s: DecoderState,
    t: DecoderState,
    from: int,
    n: int,
    band: int,
    mask: int,
) -> bool {
    &&& t.palette == s.palette
    &&& t.current_color == s.current_color
    &&& t.color_index == s.color_index
    &&& t.background_index == s.background_index
    &&& t.transparent_mode == s.transparent_mode
    &&& t.canvas.width == if n >= 1 {
        larger(s.canvas.width, from + n)
    } else {
        s.canvas.width
    }
    &&& t.canvas.height == if n >= 1 {
        larger(s.canvas.height, 6 * band + 6)
    } else {
        s.canvas.height
    }
    &&& forall|px: int, py: int|
        0 <= px < t.canvas.width && 0 <= py < t.canvas.height ==> #[trigger] pixel_at(
            t.canvas,
            px,
            py,
        ) == drawn_pixel(s, from, n, band, mask, px, py)
}

/// Columns drawn one stretch after the other are drawn as one stretch.
pub proof fn lemma_drew_join(
    s: DecoderState,
    mid: DecoderState,
    t: DecoderState,
    from: int,
    a: int,
    b: int,
    band: int,
    mask: int,
)
    requires
        0 <= from,
        1 <= a,
        0 <= b,
        0 <= band,
        s.canvas.width >= 1,
        s.canvas.height >= 1,
        drew(s, mid, from, a, band, mask),
        drew(mid, t, from + a, b, band, mask),
    ensures
        drew(s, t, from, a + b, band, mask),
{
    assert forall|px: int, py: int|
        0 <= px < t.canvas.width && 0 <= py < t.canvas.height implies #[trigger] pixel_at(
        t.canvas,
        px,
        py,
    ) == drawn_pixel(s, from, a + b, band, mask, px, py) by {
        assert(pixel_at(t.canvas, px, py) == drawn_pixel(mid, from + a, b, band, mask, px, py));
        if px < mid.canvas.width && py < mid.canvas.height {
            assert(pixel_at(mid.canvas, px, py) == drawn_pixel(s, from, a, band, mask, px, py));
        }
    }
}

/// The background of a well-formed state is a pixel, opaque unless the
/// mode is transparent.
pub proof fn lemma_background(s: DecoderState)
    requires
        decoder_wf(s),
    ensures
        background_of(s).len() == 4,
        !s.transparent_mode ==> background_of(s)[3] == 0xFFu8,
{
}

/// A six-pixel column inside the image is drawn without error: the
/// cursor moves right by the repeat count, and the farthest pixel drawn
/// moves with it, and down to the last row of the band where a bit is
/// set.
pub proof fn lemma_sixel_step(s: DecoderState, ch: u8, width: int, band: int, bands: int) -> (t:
    DecoderState)
    requires
        fits(width, bands),
        0 <= band < bands,
        0x3f <= ch <= 0x7e,
        0 <= s.pos_x,
        in_band(s, width, band, s.pos_x, s.repeat),
        s.pos_x + s.repeat <= width,
    ensures
        sixel_spec(s, ch) == Ok::<DecoderState, ErrorView>(t),
        in_band(t, width, band, s.pos_x + s.repeat, 1),
        follows(s, t),
        t.max_x >= s.pos_x + s.repeat - 1,
        ch != 0x3f ==> t.max_y == 6 * band + 5,
        drew(s, t, s.pos_x, s.repeat, band, ch - 0x3f),
{
    let bits = ch - 0x3f;
    let span = larger(s.repeat, 1);
    let width_needed = s.pos_x + span;
    let height_needed = s.pos_y + 6;
    let background = background_of(s);
    lemma_background(s);
    assert(height_needed <= 6 * bands);
    let grown_width = larger(width_needed, s.canvas.width);
    let grown_height = larger(height_needed, s.canvas.height);
    lemma_mul_bounded(grown_width, grown_height, width, 6 * bands);
    let grown = ensure_visible_spec(s.canvas, width_needed, height_needed, background)->Some_0;
    if !(width_needed <= s.canvas.width && height_needed <= s.canvas.height) {
        lemma_reshape_wf(s.canvas, grown_width, grown_height, background);
    }
    lemma_paint_column(grown, s.pos_y, s.pos_x, span, bits as int, s.current_color);
    assert(any_bit_set(bits as int) <==> ch != 0x3f);
    let t = sixel_spec(s, ch)->Ok_0;
    assert forall|px: int, py: int|
        0 <= px < t.canvas.width && 0 <= py < t.canvas.height implies #[trigger] pixel_at(
        t.canvas,
        px,
        py,
    ) == drawn_pixel(s, s.pos_x, s.repeat, band, bits as int, px, py) by {
        lemma_paint_column_pixel(
            grown,
            s.pos_y,
            s.pos_x,
            span,
            bits as int,
            s.current_color,
            px,
            py,
        );
        if !(width_needed <= s.canvas.width && height_needed <= s.canvas.height) {
            lemma_reshape_pixel(s.canvas, grown_width, grown_height, background, px, py);
        }
    }
    t
}

/// Where the command at `idx` gives the state `t` and the next command
/// begins at `after`, the decoder goes on from there.
pub proof fn lemma_run_step(s: DecoderState, data: Seq<u8>, idx: int, t: DecoderState, after: int)
    requires
        0 <= idx < data.len(),
        data[idx] != 0x1b,
        data[idx] != 0x9c,
        step_spec(s, data, idx) == Ok::<(DecoderState, int), ErrorView>((t, after)),
        idx < after <= data.len(),
    ensures
        run_spec(s, data, idx) == run_spec(t, data, after),
{
}

/// The decoder draws a six-pixel column that stands at `idx`.
pub proof fn lemma_sixel_at(
    s: DecoderState,
    data: Seq<u8>,
    idx: int,
    width: int,
    band: int,
    bands: int,
) -> (t: DecoderState)
    requires
        fits(width, bands),
        0 <= band < bands,
        0 <= idx < data.len(),
        0x3f <= data[idx] <= 0x7e,
        0 <= s.pos_x,
        in_band(s, width, band, s.pos_x, s.repeat),
        s.pos_x + s.repeat <= width,
    ensures
        run_spec(s, data, idx) == run_spec(t, data, idx + 1),
        in_band(t, width, band, s.pos_x + s.repeat, 1),
        follows(s, t),
        t.max_x >= s.pos_x + s.repeat - 1,
        data[idx] != 0x3f ==> t.max_y == 6 * band + 5,
        drew(s, t, s.pos_x, s.repeat, band, data[idx] - 0x3f),
{
    let t = lemma_sixel_step(s, data[idx], width, band, bands);
    lemma_run_step(s, data, idx, t, idx + 1);
    t
}

/// The decoder draws `n` equal columns that stand one after the other.
pub proof fn lemma_plain_run(
    s: DecoderState,
    data: Seq<u8>,
    idx: int,
    n: int,
    mask: int,
    width: int,
    band: int,
    bands: int,
) -> (t: DecoderState)
    requires
        fits(width, bands),
        0 <= band < bands,
        0 <= n,
        0 <= mask < 64,
        has_at(data, idx, Seq::new(n as nat, |i: int| (0x3f + mask) as u8)),
        0 <= s.pos_x,
        in_band(s, width, band, s.pos_x, 1),
        s.pos_x + n <= width,
    ensures
        run_spec(s, data, idx) == run_spec(t, data, idx + n),
        in_band(t, width, band, s.pos_x + n, 1),
        follows(s, t),
        n >= 1 ==> t.max_x >= s.pos_x + n - 1,
        n >= 1 && mask != 0 ==> t.max_y == 6 * band + 5,
        drew(s, t, s.pos_x, n, band, mask),
    decreases n,
{
    let chars = Seq::new(n as nat, |i: int| (0x3f + mask) as u8);
    if n == 0 {
        s
    } else {
        assert(data[idx + 0] == chars[0]);
        let mid = lemma_sixel_at(s, data, idx, width, band, bands);
        let rest = Seq::new((n - 1) as nat, |i: int| (0x3f + mask) as u8);
        assert forall|k: int| 0 <= k < rest.len() implies data[idx + 1 + k]
            == #[trigger] rest[k] by {
            assert(data[idx + (k + 1)] == chars[k + 1]);
        }
        let t = lemma_plain_run(mid, data, idx + 1, n - 1, mask, width, band, bands);
        lemma_drew_join(s, mid, t, s.pos_x, 1, n - 1, band, mask);
        t
    }
}

/// The decoder draws a run as the emitter writes it: `n` columns wide.
pub proof fn lemma_encoded_run(
    s: DecoderState,
    data: Seq<u8>,
    idx: int,
    n: int,
    mask: int,
    width: int,
    band: int,
    bands: int,
) -> (t: DecoderState)
    requires
        fits(width, bands),
        0 <= band < bands,
        1 <= n <= MAX_REPEAT,
        0 <= mask < 64,
        has_at(data, idx, encode_run(n, mask)),
        0 <= s.pos_x,
        in_band(s, width, band, s.pos_x, 1),
        s.pos_x + n <= width,
    ensures
        run_spec(s, data, idx) == run_spec(t, data, idx + encode_run(n, mask).len()),
        in_band(t, width, band, s.pos_x + n, 1),
        follows(s, t),
        t.max_x >= s.pos_x + n - 1,
        mask != 0 ==> t.max_y == 6 * band + 5,
        drew(s, t, s.pos_x, n, band, mask),
{
    if n > 3 {
        let digits = decimal_digits(n);
        let ch = (0x3f + mask) as u8;
        let run = encode_run(n, mask);
        assert(run =~= seq![0x21u8] + (digits + seq![ch]));
        lemma_has_at_split(data, idx, seq![0x21u8], digits + seq![ch]);
        lemma_has_at_split(data, idx + 1, digits, seq![ch]);
        let end = idx + 1 + digits.len();
        assert(data[idx + 0] == seq![0x21u8][0]);
        assert(data[end + 0] == seq![ch][0]);
        lemma_decimal_value_of_digits(data, idx + 1, n);
        lemma_digits_end_at(data, idx + 1, end);
        let counted = DecoderState { repeat: larger(n, 1), ..s };
        assert(step_spec(s, data, idx) == Ok::<(DecoderState, int), ErrorView>((counted, end)));
        lemma_run_step(s, data, idx, counted, end);
        let t = lemma_sixel_at(counted, data, end, width, band, bands);
        assert(drew(s, t, s.pos_x, n, band, mask)) by {
            assert forall|px: int, py: int|
                0 <= px < t.canvas.width && 0 <= py < t.canvas.height implies #[trigger] pixel_at(
                t.canvas,
                px,
                py,
            ) == drawn_pixel(s, s.pos_x, n, band, mask, px, py) by {
                assert(pixel_at(t.canvas, px, py) == drawn_pixel(
                    counted,
                    s.pos_x,
                    n,
                    band,
                    mask,
                    px,
                    py,
                ));
            }
        }
        t
    } else {
        lemma_plain_run(s, data, idx, n, mask, width, band, bands)
    }
}

/// A six-pixel column has six bits.
pub proof fn lemma_column_mask_range(q: Indexed, band: int, x: int, c: int)
    ensures
        0 <= column_mask(q, band, x, c) < 64,
{
}

/// The columns counted from `from` on repeat the column at `x`, and the
/// one after them does not.
pub proof fn lemma_run_extra(q: Indexed, band: int, c: int, x: int, from: int)
    requires
        0 <= x < from <= q.width,
    ensures
        from + run_extra(q, band, c, x, from) <= q.width,
        forall|j: int|
            from <= j < from + run_extra(q, band, c, x, from) ==> column_mask(q, band, j, c)
                == column_mask(q, band, x, c),
        from + run_extra(q, band, c, x, from) < q.width ==> column_mask(
            q,
            band,
            from + run_extra(q, band, c, x, from),
            c,
        ) != column_mask(q, band, x, c),
    decreases q.width - from,
{
    if from < q.width && column_mask(q, band, from, c) == column_mask(q, band, x, c) {
        lemma_run_extra(q, band, c, x, from + 1);
    }
}

/// Whether no run of colour `c` in a band is longer than the decoder's
/// largest repeat count.
pub open spec fn runs_fit_in(q: Indexed, band: int, c: int) -> bool {
    forall|x: int|
        0 <= x < q.width && is_run_start(q, band, c, x) ==> #[trigger] run_len(q, band, c, x)
            <= MAX_REPEAT
}

/// The decoder draws the runs of one colour in a band, as the emitter
/// writes them, from column `x` to the right edge.
pub proof fn lemma_sweep(
    s: DecoderState,
    data: Seq<u8>,
    idx: int,
    q: Indexed,
    band: int,
    c: int,
    x: int,
    bands: int,
    transparent: bool,
) -> (t: DecoderState)
    requires
        fits(q.width, bands),
        0 <= band < bands,
        0 <= x <= q.width,
        x < q.width ==> is_run_start(q, band, c, x),
        runs_fit_in(q, band, c),
        has_at(data, idx, sweep(q, band, c, x)),
        in_band(s, q.width, band, x, 1),
    ensures
        run_spec(s, data, idx) == run_spec(t, data, idx + sweep(q, band, c, x).len()),
        in_band(t, q.width, band, q.width, 1),
        follows(s, t),
        x < q.width ==> t.max_x == q.width - 1,
        (exists|j: int| x <= j < q.width && column_mask(q, band, j, c) != 0) ==> t.max_y == 6
            * band + 5,
        painted(s, q, transparent, band, c, x) && 0 <= c < q.palette.len() && s.current_color
            == color_pixel(q, c) ==> painted(t, q, transparent, band, c, q.width)
            && t.current_color == color_pixel(q, c),
    decreases q.width - x,
{
    if x >= q.width {
        s
    } else {
        let n = run_len(q, band, c, x);
        let mask = column_mask(q, band, x, c);
        lemma_run_extra(q, band, c, x, x + 1);
        lemma_column_mask_range(q, band, x, c);
        assert(forall|j: int| x <= j < x + n ==> column_mask(q, band, j, c) == mask);
        if n > 1 {
            lemma_run(q, band, c, x, n, x + 1);
        }
        let run = encode_run(n, mask);
        let rest = sweep(q, band, c, x + n);
        assert(sweep(q, band, c, x) == run + rest);
        lemma_has_at_split(data, idx, run, rest);
        let mid = lemma_encoded_run(s, data, idx, n, mask, q.width, band, bands);
        if painted(s, q, transparent, band, c, x) && 0 <= c < q.palette.len() && s.current_color
            == color_pixel(q, c) {
            lemma_painted_run(s, mid, q, transparent, band, c, x, n);
        }
        let t = lemma_sweep(mid, data, idx + run.len(), q, band, c, x + n, bands, transparent);
        if exists|j: int| x <= j < q.width && column_mask(q, band, j, c) != 0 {
            let j = choose|j: int| x <= j < q.width && column_mask(q, band, j, c) != 0;
            if j < x + n {
                assert(mask != 0);
            } else {
                assert(x + n <= j < q.width && column_mask(q, band, j, c) != 0);
            }
        }
        t
    }
}

/// The decoder obeys a colour command, whatever its parameters: it
/// draws nothing and moves nothing.
pub proof fn lemma_color_at(
    s: DecoderState,
    data: Seq<u8>,
    idx: int,
    end: int,
    width: int,
    band: int,
    x: int,
) -> (t: DecoderState)
    requires
        0 <= idx < end <= data.len(),
        data[idx] == 0x23,
        forall|k: int| idx + 1 <= k < end ==> is_param_byte(#[trigger] data[k]),
        end < data.len() ==> !is_param_byte(data[end]),
        in_band(s, width, band, x, 1),
    ensures
        run_spec(s, data, idx) == run_spec(t, data, end),
        in_band(t, width, band, x, 1),
        follows(s, t),
        t.max_x == s.max_x,
        t.max_y == s.max_y,
        t == color_spec(s, leading_params(data, idx + 1, 5)),
{
    lemma_params_end_at(data, idx + 1, end);
    let params = leading_params(data, idx + 1, 5);
    let t = color_spec(s, params);
    assert(step_spec(s, data, idx) == Ok::<(DecoderState, int), ErrorView>((t, end)));
    assert(end > idx + 1 || end == idx + 1);
    if end > idx {
        lemma_run_step(s, data, idx, t, end);
    }
    t
}

/// A run begins with `!` or with the character of a column.
pub proof fn lemma_encode_run_first(n: int, mask: int)
    requires
        1 <= n,
        0 <= mask < 64,
    ensures
        encode_run(n, mask).len() >= 1,
        !is_param_byte(encode_run(n, mask)[0]),
        encode_run(n, mask)[0] != 0x1b,
        encode_run(n, mask)[0] != 0x9c,
{
}

/// A band that uses a colour has a column in which it is set.
pub proof fn lemma_used_has_column(q: Indexed, band: int, c: int)
    requires
        q.width >= 1,
        q.height >= 0,
        0 <= band,
        color_used(q, band, c),
    ensures
        exists|j: int| 0 <= j < q.width && column_mask(q, band, j, c) != 0,
{
    let p = choose|p: int|
        band_begin(q, band) <= p < band_end(q, band) && #[trigger] pixel_is(q, p, c);
    let y = p / q.width;
    let x = p % q.width;
    vstd::arithmetic::div_mod::lemma_fundamental_div_mod(p, q.width);
    assert(p == q.width * y + x);
    assert(q.width * y == y * q.width) by (nonlinear_arith);
    assert(6 * band * q.width == (6 * band) * q.width);
    assert(6 * band <= y) by (nonlinear_arith)
        requires
            (6 * band) * q.width <= p,
            p == y * q.width + x,
            0 <= x < q.width,
    ;
    if 6 * band + 6 < q.height {
        assert(y < 6 * band + 6) by (nonlinear_arith)
            requires
                p < (6 * band + 6) * q.width,
                p == y * q.width + x,
                0 <= x < q.width,
        ;
    } else {
        assert(y < q.height) by (nonlinear_arith)
            requires
                p < q.height * q.width,
                p == y * q.width + x,
                0 <= x < q.width,
        ;
        assert(y < 6 * band + 6);
    }
    assert(hit(q, x, y, c));
    assert(column_mask(q, band, x, c) != 0);
}

/// A colour command with one number has that number as its only
/// parameter.
pub proof fn lemma_select_params(data: Seq<u8>, at: int, c: int)
    requires
        0 <= c <= i32::MAX,
        has_at(data, at, decimal_digits(c)),
        at + decimal_digits(c).len() < data.len(),
        !is_param_byte(data[at + decimal_digits(c).len()]),
    ensures
        leading_params(data, at, 5) == seq![c],
{
    let digits = decimal_digits(c);
    let end = at + digits.len();
    lemma_decimal_digits_ascii(c);
    lemma_param_fields_of_digits(data, at, c, i32::MAX as int);
    assert forall|k: int| at <= k < end implies is_param_byte(#[trigger] data[k]) by {
        assert(data[at + (k - at)] == digits[k - at]);
    }
    lemma_params_end_at(data, at, end);
    let all = param_list(data, at, i32::MAX as int);
    assert(all == param_fields(data, end, c, i32::MAX as int));
    assert(all =~= seq![c]);
    assert(leading_params(data, at, 5) =~= seq![c]);
}

/// The decoder draws one colour of a band as the emitter writes it, and
/// comes back to the left edge. Where the band uses the colour, the
/// drawing then reaches the right edge and the last row of the band.
pub proof fn lemma_color_pass(
    s: DecoderState,
    data: Seq<u8>,
    idx: int,
    q: Indexed,
    band: int,
    c: int,
    bands: int,
    transparent: bool,
) -> (t: DecoderState)
    requires
        fits(q.width, bands),
        q.height >= 0,
        0 <= band < bands,
        0 <= c,
        runs_fit_in(q, band, c) || !color_used(q, band, c),
        has_at(data, idx, color_pass(q, band, c)),
        in_band(s, q.width, band, 0, 1),
    ensures
        run_spec(s, data, idx) == run_spec(t, data, idx + color_pass(q, band, c).len()),
        in_band(t, q.width, band, 0, 1),
        follows(s, t),
        color_used(q, band, c) ==> t.max_x == q.width - 1 && t.max_y == 6 * band + 5,
        painted(s, q, transparent, band, c, 0) && c < q.palette.len() <= 256 ==> painted(
            t,
            q,
            transparent,
            band,
            c + 1,
            0,
        ),
{
    if !color_used(q, band, c) {
        if painted(s, q, transparent, band, c, 0) {
            lemma_painted_unused_color(s, q, transparent, band, c);
        }
        s
    } else {
        let digits = decimal_digits(c);
        let runs = sweep(q, band, c, 0);
        let pass = color_pass(q, band, c);
        assert(pass =~= seq![0x23u8] + (digits + (runs + seq![0x24u8])));
        lemma_has_at_split(data, idx, seq![0x23u8], digits + (runs + seq![0x24u8]));
        lemma_has_at_split(data, idx + 1, digits, runs + seq![0x24u8]);
        let after_digits = idx + 1 + digits.len();
        lemma_has_at_split(data, after_digits, runs, seq![0x24u8]);
        let after_runs = after_digits + runs.len();
        assert(data[idx + 0] == seq![0x23u8][0]);
        assert(data[after_runs + 0] == seq![0x24u8][0]);
        lemma_decimal_digits_ascii(c);
        assert forall|k: int| idx + 1 <= k < after_digits implies is_param_byte(
            #[trigger] data[k],
        ) by {
            assert(data[idx + 1 + (k - idx - 1)] == digits[k - idx - 1]);
        }
        lemma_run_extra(q, band, c, 0, 1);
        lemma_column_mask_range(q, band, 0, c);
        lemma_encode_run_first(run_len(q, band, c, 0), column_mask(q, band, 0, c));
        let first = encode_run(run_len(q, band, c, 0), column_mask(q, band, 0, c));
        assert(runs == first + sweep(q, band, c, 1));
        assert(data[after_digits + 0] == runs[0]);
        assert(runs[0] == first[0]);
        let selected = lemma_color_at(s, data, idx, after_digits, q.width, band, 0);
        if painted(s, q, transparent, band, c, 0) && c < q.palette.len() <= 256 {
            lemma_select_params(data, idx + 1, c);
            assert(selected == color_spec(s, seq![c]));
            assert(selected.current_color == color_pixel(q, c));
            assert(painted(selected, q, transparent, band, c, 0));
        }
        let drawn = lemma_sweep(selected, data, after_digits, q, band, c, 0, bands, transparent);
        let t = DecoderState { pos_x: 0, ..drawn };
        if painted(s, q, transparent, band, c, 0) && c < q.palette.len() <= 256 {
            lemma_painted_next_color(drawn, q, transparent, band, c);
            assert(painted(t, q, transparent, band, c + 1, 0));
        }
        assert(step_spec(drawn, data, after_runs) == Ok::<(DecoderState, int), ErrorView>(
            (t, after_runs + 1),
        ));
        lemma_run_step(drawn, data, after_runs, t, after_runs + 1);
        lemma_used_has_column(q, band, c);
        t
    }
}

/// Whether no run of a colour that a band uses is longer than the
/// decoder's largest repeat count.
pub open spec fn runs_fit(q: Indexed) -> bool {
    forall|band: int, c: int|
        0 <= band < band_count(q.height) && 0 <= c < q.palette.len() && #[trigger] color_used(
            q,
            band,
            c,
        ) ==> runs_fit_in(q, band, c)
}

/// Whether a band has an opaque pixel of a palette colour.
pub open spec fn band_drawn(q: Indexed, band: int) -> bool {
    exists|c: int| 0 <= c < q.palette.len() && #[trigger] color_used(q, band, c)
}

/// Whether every band has an opaque pixel of a palette colour.
pub open spec fn every_band_drawn(q: Indexed) -> bool {
    forall|band: int| 0 <= band < band_count(q.height) ==> #[trigger] band_drawn(q, band)
}

/// The decoder draws the first `n` colours of a band as the emitter
/// writes them. Where the band uses one of them, the drawing then
/// reaches the right edge and the last row of the band.
pub proof fn lemma_band_passes(
    s: DecoderState,
    data: Seq<u8>,
    idx: int,
    q: Indexed,
    band: int,
    n: int,
    transparent: bool,
) -> (t: DecoderState)
    requires
        fits(q.width, band_count(q.height)),
        q.height >= 0,
        0 <= band < band_count(q.height),
        0 <= n <= q.palette.len(),
        runs_fit(q),
        has_at(data, idx, band_passes(q, band, n)),
        in_band(s, q.width, band, 0, 1),
    ensures
        run_spec(s, data, idx) == run_spec(t, data, idx + band_passes(q, band, n).len()),
        in_band(t, q.width, band, 0, 1),
        follows(s, t),
        (exists|c: int| 0 <= c < n && color_used(q, band, c)) ==> t.max_x == q.width - 1
            && t.max_y == 6 * band + 5,
        painted(s, q, transparent, band, 0, 0) && q.palette.len() <= 256 ==> painted(
            t,
            q,
            transparent,
            band,
            n,
            0,
        ),
    decreases n,
{
    if n <= 0 {
        s
    } else {
        let before = band_passes(q, band, n - 1);
        let pass = color_pass(q, band, n - 1);
        lemma_has_at_split(data, idx, before, pass);
        let mid = lemma_band_passes(s, data, idx, q, band, n - 1, transparent);
        let t = lemma_color_pass(
            mid,
            data,
            idx + before.len(),
            q,
            band,
            n - 1,
            band_count(q.height),
            transparent,
        );
        if exists|c: int| 0 <= c < n && color_used(q, band, c) {
            let c = choose|c: int| 0 <= c < n && color_used(q, band, c);
            if c < n - 1 {
                assert(0 <= c < n - 1 && color_used(q, band, c));
            }
        }
        t
    }
}

/// The decoder draws a band as the emitter writes it and moves to the
/// next. Where the band uses a colour, the drawing reaches the right
/// edge and the last row of the band.
pub proof fn lemma_band(
    s: DecoderState,
    data: Seq<u8>,
    idx: int,
    q: Indexed,
    band: int,
    transparent: bool,
) -> (t: DecoderState)
    requires
        fits(q.width, band_count(q.height)),
        q.height >= 0,
        0 <= band < band_count(q.height),
        q.palette.len() <= 256,
        runs_fit(q),
        has_at(data, idx, band_bytes(q, band)),
        in_band(s, q.width, band, 0, 1),
    ensures
        run_spec(s, data, idx) == run_spec(t, data, idx + band_bytes(q, band).len()),
        in_band(t, q.width, band + 1, 0, 1),
        follows(s, t),
        (exists|c: int| 0 <= c < q.palette.len() && color_used(q, band, c)) ==> t.max_x
            == q.width - 1 && t.max_y == 6 * band + 5,
        painted(s, q, transparent, band, 0, 0) ==> painted(t, q, transparent, band + 1, 0, 0),
{
    let passes = band_passes(q, band, q.palette.len() as int);
    lemma_has_at_split(data, idx, passes, seq![0x2du8]);
    let drawn = lemma_band_passes(s, data, idx, q, band, q.palette.len() as int, transparent);
    if painted(s, q, transparent, band, 0, 0) {
        lemma_painted_next_band(drawn, q, transparent, band);
    }
    let at = idx + passes.len();
    assert(data[at + 0] == seq![0x2du8][0]);
    let t = DecoderState { pos_x: 0, pos_y: drawn.pos_y + 6, ..drawn };
    assert(step_spec(drawn, data, at) == Ok::<(DecoderState, int), ErrorView>((t, at + 1)));
    lemma_run_step(drawn, data, at, t, at + 1);
    t
}

/// The decoder draws the first `n` bands as the emitter writes them:
/// the drawing then reaches the right edge and the last row of the last
/// of them.
pub proof fn lemma_bands(
    s: DecoderState,
    data: Seq<u8>,
    idx: int,
    q: Indexed,
    n: int,
    transparent: bool,
) -> (t: DecoderState)
    requires
        fits(q.width, band_count(q.height)),
        q.height >= 0,
        0 <= n <= band_count(q.height),
        q.palette.len() <= 256,
        runs_fit(q),
        every_band_drawn(q),
        has_at(data, idx, bands_bytes(q, n)),
        in_band(s, q.width, 0, 0, 1),
    ensures
        run_spec(s, data, idx) == run_spec(t, data, idx + bands_bytes(q, n).len()),
        in_band(t, q.width, n, 0, 1),
        follows(s, t),
        n >= 1 ==> t.max_x == q.width - 1 && t.max_y == 6 * n - 1,
        painted(s, q, transparent, 0, 0, 0) ==> painted(t, q, transparent, n, 0, 0),
    decreases n,
{
    if n <= 0 {
        s
    } else {
        let before = bands_bytes(q, n - 1);
        let band = band_bytes(q, n - 1);
        lemma_has_at_split(data, idx, before, band);
        let mid = lemma_bands(s, data, idx, q, n - 1, transparent);
        assert(band_drawn(q, n - 1));
        lemma_band(mid, data, idx + before.len(), q, n - 1, transparent)
    }
}

/// A colour definition is `#` and then digits and `;` only.
pub proof fn lemma_color_def_bytes(i: int, c: Rgb)
    requires
        0 <= i,
    ensures
        color_def(i, c).len() >= 1,
        color_def(i, c)[0] == 0x23,
        forall|k: int|
            1 <= k < color_def(i, c).len() ==> is_param_byte(#[trigger] color_def(i, c)[k]),
{
    let a = decimal_digits(i);
    let r = decimal_digits(byte_to_percent_spec(c.r as int));
    let g = decimal_digits(byte_to_percent_spec(c.g as int));
    let b = decimal_digits(byte_to_percent_spec(c.b as int));
    lemma_decimal_digits_ascii(i);
    lemma_decimal_digits_ascii(byte_to_percent_spec(c.r as int));
    lemma_decimal_digits_ascii(byte_to_percent_spec(c.g as int));
    lemma_decimal_digits_ascii(byte_to_percent_spec(c.b as int));
    let def = color_def(i, c);
    let tail = a + seq![0x3bu8, 0x32u8, 0x3bu8] + r + seq![0x3bu8] + g + seq![0x3bu8] + b;
    assert(def =~= seq![0x23u8] + tail);
    assert forall|k: int| 0 <= k < tail.len() implies is_param_byte(#[trigger] tail[k]) by {
        let l1 = a.len() as int;
        let l2 = l1 + 3;
        let l3 = l2 + r.len();
        let l4 = l3 + 1;
        let l5 = l4 + g.len();
        let l6 = l5 + 1;
        if k < l1 {
            assert(tail[k] == a[k]);
        } else if k < l2 {
            assert(tail[k] == seq![0x3bu8, 0x32u8, 0x3bu8][k - l1]);
        } else if k < l3 {
            assert(tail[k] == r[k - l2]);
        } else if k < l4 {
            assert(tail[k] == 0x3bu8);
        } else if k < l5 {
            assert(tail[k] == g[k - l4]);
        } else if k < l6 {
            assert(tail[k] == 0x3bu8);
        } else {
            assert(tail[k] == b[k - l6]);
        }
    }
    assert forall|k: int| 1 <= k < def.len() implies is_param_byte(#[trigger] def[k]) by {
        assert(def[k] == tail[k - 1]);
    }
}

/// A colour definition of the emitter has five parameters: the
/// register, the colour space 2, and the three channels in percent.
pub proof fn lemma_define_params(data: Seq<u8>, at: int, i: int, c: Rgb)
    requires
        0 <= i <= 255,
        has_at(data, at, color_def(i, c)),
        at + color_def(i, c).len() < data.len(),
        !is_param_byte(data[at + color_def(i, c).len()]),
    ensures
        leading_params(data, at + 1, 5) == seq![
            i,
            2,
            byte_to_percent_spec(c.r as int),
            byte_to_percent_spec(c.g as int),
            byte_to_percent_spec(c.b as int),
        ],
{
    let limit = i32::MAX as int;
    let r = byte_to_percent_spec(c.r as int);
    let g = byte_to_percent_spec(c.g as int);
    let b = byte_to_percent_spec(c.b as int);
    let di = decimal_digits(i);
    let dr = decimal_digits(r);
    let dg = decimal_digits(g);
    let db = decimal_digits(b);
    let sep = seq![0x3bu8, 0x32u8, 0x3bu8];
    let semi = seq![0x3bu8];
    let def = color_def(i, c);
    lemma_color_def_bytes(i, c);
    assert(def =~= seq![0x23u8] + (di + (sep + (dr + (semi + (dg + (semi + db)))))));
    lemma_has_at_split(data, at, seq![0x23u8], di + (sep + (dr + (semi + (dg + (semi + db))))));
    let a0 = at + 1;
    lemma_has_at_split(data, a0, di, sep + (dr + (semi + (dg + (semi + db)))));
    let a1 = a0 + di.len();
    lemma_has_at_split(data, a1, sep, dr + (semi + (dg + (semi + db))));
    let a2 = a1 + 3;
    lemma_has_at_split(data, a2, dr, semi + (dg + (semi + db)));
    let a3 = a2 + dr.len();
    lemma_has_at_split(data, a3, semi, dg + (semi + db));
    let a4 = a3 + 1;
    lemma_has_at_split(data, a4, dg, semi + db);
    let a5 = a4 + dg.len();
    lemma_has_at_split(data, a5, semi, db);
    let a6 = a5 + 1;
    let a7 = a6 + db.len();
    assert(a7 == at + def.len());
    assert(data[a1 + 0] == sep[0] && data[a1 + 1] == sep[1] && data[a1 + 2] == sep[2]);
    assert(data[a3 + 0] == semi[0]);
    assert(data[a5 + 0] == semi[0]);
    lemma_param_fields_of_digits(data, a0, i, limit);
    lemma_param_fields_of_digits(data, a2, r, limit);
    lemma_param_fields_of_digits(data, a4, g, limit);
    lemma_param_fields_of_digits(data, a6, b, limit);
    assert(param_fields(data, a1, i, limit) == seq![i] + param_fields(data, a1 + 1, 0, limit));
    assert(param_fields(data, a1 + 1, 0, limit) == param_fields(data, a1 + 2, 2, limit));
    assert(param_fields(data, a1 + 2, 2, limit) == seq![2int] + param_fields(data, a2, 0, limit));
    assert(param_fields(data, a3, r, limit) == seq![r] + param_fields(data, a4, 0, limit));
    assert(param_fields(data, a5, g, limit) == seq![g] + param_fields(data, a6, 0, limit));
    assert(param_fields(data, a7, b, limit) == seq![b]);
    let all = param_fields(data, a0, 0, limit);
    assert(all =~= seq![i, 2, r, g, b]);
    assert forall|k: int| a0 <= k < a7 implies is_param_byte(#[trigger] data[k]) by {
        assert(data[at + (k - at)] == def[k - at]);
    }
    lemma_params_end_at(data, a0, a7);
    assert(param_list(data, a0, limit) == all);
    assert(leading_params(data, a0, 5) =~= all);
}

/// The decoder obeys the first `n` colour definitions as the emitter
/// writes them: it draws nothing and moves nothing.
pub proof fn lemma_palette_defs(
    s: DecoderState,
    data: Seq<u8>,
    idx: int,
    palette: Seq<Rgb>,
    n: int,
    width: int,
) -> (t: DecoderState)
    requires
        0 <= n,
        has_at(data, idx, palette_defs(palette, n)),
        idx + palette_defs(palette, n).len() < data.len(),
        !is_param_byte(data[idx + palette_defs(palette, n).len()]),
        in_band(s, width, 0, 0, 1),
    ensures
        run_spec(s, data, idx) == run_spec(t, data, idx + palette_defs(palette, n).len()),
        in_band(t, width, 0, 0, 1),
        follows(s, t),
        t.max_x == s.max_x,
        t.max_y == s.max_y,
        t.canvas == s.canvas,
        t.background_index == s.background_index,
        s.palette == default_registers() && n <= 256 ==> t.palette == registers_after(palette, n),
    decreases n,
{
    if n <= 0 {
        s
    } else {
        let before = palette_defs(palette, n - 1);
        let def = color_def(n - 1, palette[n - 1]);
        lemma_has_at_split(data, idx, before, def);
        lemma_color_def_bytes(n - 1, palette[n - 1]);
        let at = idx + before.len();
        assert(data[at + 0] == def[0]);
        let mid = lemma_palette_defs(s, data, idx, palette, n - 1, width);
        assert forall|k: int| at + 1 <= k < at + def.len() implies is_param_byte(
            #[trigger] data[k],
        ) by {
            assert(data[at + (k - at)] == def[k - at]);
        }
        let t = lemma_color_at(mid, data, at, at + def.len(), width, 0, 0);
        if n <= 256 {
            lemma_define_params(data, at, n - 1, palette[n - 1]);
        }
        t
    }
}

/// Whether every byte is one that the emitter writes between the
/// introducer and the string terminator: printable, and so neither
/// `ESC` nor `0x9C`.
pub open spec fn is_body(part: Seq<u8>) -> bool {
    forall|k: int| 0 <= k < part.len() ==> 0x21 <= #[trigger] part[k] <= 0x7e
}

/// Two parts of a body make a body.
pub proof fn lemma_body_join(a: Seq<u8>, b: Seq<u8>)
    requires
        is_body(a),
        is_body(b),
    ensures
        is_body(a + b),
{
    let ab = a + b;
    assert forall|k: int| 0 <= k < ab.len() implies 0x21 <= #[trigger] ab[k] <= 0x7e by {
        if k < a.len() {
            assert(ab[k] == a[k]);
        } else {
            assert(ab[k] == b[k - a.len()]);
        }
    }
}

/// The colour definitions are a body.
pub proof fn lemma_palette_defs_body(palette: Seq<Rgb>, n: int)
    requires
        0 <= n,
    ensures
        is_body(palette_defs(palette, n)),
    decreases n,
{
    if n > 0 {
        lemma_palette_defs_body(palette, n - 1);
        lemma_color_def_bytes(n - 1, palette[n - 1]);
        let def = color_def(n - 1, palette[n - 1]);
        assert(is_body(def)) by {
            assert forall|k: int| 0 <= k < def.len() implies 0x21 <= #[trigger] def[k] <= 0x7e by {
                if k >= 1 {
                    assert(is_param_byte(def[k]));
                }
            }
        }
        lemma_body_join(palette_defs(palette, n - 1), def);
    }
}

/// A run is a body.
pub proof fn lemma_encode_run_body(n: int, mask: int)
    requires
        1 <= n,
        0 <= mask < 64,
    ensures
        is_body(encode_run(n, mask)),
{
    lemma_decimal_digits_ascii(n);
    if n > 3 {
        let digits = decimal_digits(n);
        let run = encode_run(n, mask);
        assert forall|k: int| 0 <= k < run.len() implies 0x21 <= #[trigger] run[k] <= 0x7e by {
            if 1 <= k <= digits.len() {
                assert(run[k] == digits[k - 1]);
            }
        }
    }
}

/// The runs of a colour are a body.
pub proof fn lemma_sweep_body(q: Indexed, band: int, c: int, x: int)
    requires
        0 <= x,
    ensures
        is_body(sweep(q, band, c, x)),
    decreases q.width - x,
{
    if x < q.width {
        lemma_sweep_body(q, band, c, x + 1);
        if is_run_start(q, band, c, x) {
            lemma_column_mask_range(q, band, x, c);
            lemma_encode_run_body(run_len(q, band, c, x), column_mask(q, band, x, c));
            lemma_body_join(
                encode_run(run_len(q, band, c, x), column_mask(q, band, x, c)),
                sweep(q, band, c, x + 1),
            );
        }
    }
}

/// A pass is a body, and begins with `#` where it is not empty.
pub proof fn lemma_color_pass_body(q: Indexed, band: int, c: int)
    requires
        0 <= c,
    ensures
        is_body(color_pass(q, band, c)),
        color_pass(q, band, c).len() > 0 ==> color_pass(q, band, c)[0] == 0x23,
{
    if color_used(q, band, c) {
        lemma_decimal_digits_ascii(c);
        lemma_sweep_body(q, band, c, 0);
        let digits = decimal_digits(c);
        assert(is_body(digits));
        lemma_body_join(seq![0x23u8], digits);
        lemma_body_join(seq![0x23u8] + digits, sweep(q, band, c, 0));
        lemma_body_join(seq![0x23u8] + digits + sweep(q, band, c, 0), seq![0x24u8]);
    }
}

/// The passes of a band are a body, and begin with `#` where there is
/// one.
pub proof fn lemma_band_passes_body(q: Indexed, band: int, n: int)
    requires
        0 <= n,
    ensures
        is_body(band_passes(q, band, n)),
        band_passes(q, band, n).len() > 0 ==> band_passes(q, band, n)[0] == 0x23,
    decreases n,
{
    if n > 0 {
        lemma_band_passes_body(q, band, n - 1);
        lemma_color_pass_body(q, band, n - 1);
        lemma_body_join(band_passes(q, band, n - 1), color_pass(q, band, n - 1));
    }
}

/// A band is a body that begins with `#` or `-` and ends with `-`.
pub proof fn lemma_band_body(q: Indexed, band: int)
    ensures
        is_body(band_bytes(q, band)),
        band_bytes(q, band).len() >= 1,
        !is_param_byte(band_bytes(q, band)[0]),
        band_bytes(q, band).last() == 0x2d,
{
    lemma_band_passes_body(q, band, q.palette.len() as int);
    lemma_body_join(band_passes(q, band, q.palette.len() as int), seq![0x2du8]);
}

/// The bands are a body; where there is one, they begin with `#` or `-`
/// and end with `-`.
pub proof fn lemma_bands_body(q: Indexed, n: int)
    requires
        0 <= n,
    ensures
        is_body(bands_bytes(q, n)),
        n >= 1 ==> bands_bytes(q, n).len() >= 1 && !is_param_byte(bands_bytes(q, n)[0])
            && bands_bytes(q, n).last() == 0x2d,
    decreases n,
{
    if n > 0 {
        lemma_bands_body(q, n - 1);
        lemma_band_body(q, n - 1);
        lemma_body_join(bands_bytes(q, n - 1), band_bytes(q, n - 1));
    }
}

/// A payload without terminator inside, before a terminator, ends at
/// that terminator.
pub proof fn lemma_payload_end_at(data: Seq<u8>, from: int, to: int)
    requires
        0 <= from <= to < data.len(),
        forall|k: int| from <= k < to ==> 0x21 <= #[trigger] data[k] <= 0x7e,
        terminator_at(data, to),
    ensures
        payload_end(data, from) == to,
    decreases to - from,
{
    if from < to {
        assert(!terminator_at(data, from));
        lemma_payload_end_at(data, from + 1, to);
    }
}

/// The parameters that the emitter's introducer carries.
pub open spec fn emitted_settings(transparent: bool) -> DcsSettings {
    if transparent {
        DcsSettings { aspect_ratio: Some(0u16), zero_color: Some(1u16), grid_size: Some(0u16) }
    } else {
        DcsSettings { aspect_ratio: None, zero_color: None, grid_size: None }
    }
}

/// What the emitter writes between introducer and string terminator.
pub open spec fn emitted_body(q: Indexed) -> Seq<u8> {
    palette_defs(q.palette, q.palette.len() as int) + bands_bytes(q, band_count(q.height))
}

/// The introducer that the emitter writes carries its parameters.
pub proof fn lemma_emitted_header(data: Seq<u8>, transparent: bool)
    requires
        has_at(data, 0, header_bytes(transparent)),
    ensures
        introducer_end(data, 0) == Some(2int),
        scan_header(data, 2, 0, false, Seq::empty()) == Some(
            (
                if transparent {
                    seq![0u16, 1u16, 0u16]
                } else {
                    Seq::<u16>::empty()
                },
                header_bytes(transparent).len() as int,
            ),
        ),
{
    let header = header_bytes(transparent);
    assert(data[0int + 0] == header[0]);
    assert(data[0int + 1] == header[1]);
    assert(data[0int + 2] == header[2]);
    assert(introducer_end(data, 0) == Some(2int));
    if transparent {
        lemma_transparent_header(data);
    } else {
        assert(scan_header(data, 2, 0, false, Seq::empty()) == Some(
            (Seq::<u16>::empty(), 3int),
        ));
    }
}

/// The parameters `0;1;0` of the introducer for a transparent
/// background are read as three numbers.
pub proof fn lemma_transparent_header(data: Seq<u8>)
    requires
        has_at(data, 0, header_bytes(true)),
    ensures
        scan_header(data, 2, 0, false, Seq::empty()) == Some((seq![0u16, 1u16, 0u16], 8int)),
{
    let header = header_bytes(true);
    assert(data[0int + 2] == header[2]);
    assert(data[0int + 3] == header[3]);
    assert(data[0int + 4] == header[4]);
    assert(data[0int + 5] == header[5]);
    assert(data[0int + 6] == header[6]);
    assert(data[0int + 7] == header[7]);
    let none = Seq::<u16>::empty();
    let one = seq![0u16];
    let two = seq![0u16, 1u16];
    let three = seq![0u16, 1u16, 0u16];
    assert(none.push(0u16) =~= one);
    assert(one.push(1u16) =~= two);
    assert(two.push(0u16) =~= three);
    let done = Some((three, 8int));
    assert(scan_header(data, 7, 0, true, two) == done);
    assert(scan_header(data, 6, 0, false, two) == done);
    assert(scan_header(data, 5, 1, true, one) == done);
    assert(scan_header(data, 4, 0, false, one) == done);
    assert(scan_header(data, 3, 0, true, none) == done);
    assert(scan_header(data, 2, 0, false, none) == done);
}

/// The decoder finds in the emitter's output the emitter's parameters
/// and, as the payload, all between introducer and string terminator.
pub proof fn lemma_emitted_envelope(q: Indexed, transparent: bool)
    requires
        q.height >= 1,
    ensures
        parse_spec(emit_spec(q, transparent)) == Ok::<Envelope, ErrorView>(
            Envelope {
                aspect_ratio: emitted_settings(transparent).aspect_ratio,
                zero_color: emitted_settings(transparent).zero_color,
                grid_size: emitted_settings(transparent).grid_size,
                payload: emitted_body(q),
            },
        ),
{
    let bands = band_count(q.height);
    let header = header_bytes(transparent);
    let defs = palette_defs(q.palette, q.palette.len() as int);
    let drawing = bands_bytes(q, bands);
    let body = emitted_body(q);
    let data = emit_spec(q, transparent);
    let start = header.len() as int;
    let end = start + body.len();
    lemma_palette_defs_body(q.palette, q.palette.len() as int);
    lemma_bands_body(q, bands);
    lemma_body_join(defs, drawing);
    assert(data =~= header + (body + trailer_bytes()));
    assert(data.len() == end + 2);
    assert(data[end] == 0x1b && data[end + 1] == 0x5c);
    assert forall|k: int| start <= k < end implies 0x21 <= #[trigger] data[k] <= 0x7e by {
        assert(data[k] == body[k - start]);
    }
    lemma_payload_end_at(data, start, end);
    assert(data.subrange(start, end) =~= body);
    assert(has_at(data, 0, header));
    lemma_emitted_header(data, transparent);
}

/// Before the first byte the decoder stands at the origin of band 0.
pub proof fn lemma_initial_state(transparent: bool, width: int)
    requires
        width >= 1,
    ensures
        in_band(initial_state(emitted_settings(transparent)), width, 0, 0, 1),
        initial_state(emitted_settings(transparent)).transparent_mode == transparent,
{
    let s = initial_state(emitted_settings(transparent));
    let first = opaque_pixel(default_registers()[0] as int);
    assert(first.len() == 4 && first[3] == 0xFFu8);
    assert(transparent_pixel().len() == 4);
    lemma_single_pixel_wf(first);
    lemma_single_pixel_wf(transparent_pixel());
    assert(raster_wf(s.canvas));
    assert(s.palette.len() == 256);
    assert(s.pan == 2);
    assert(1 <= s.pad <= 2);
}

/// The state in which the decoder ends the payload that the emitter
/// writes: the drawing reaches the right edge and the last row of the
/// last band.
pub proof fn lemma_emitted_payload(q: Indexed, transparent: bool) -> (t: DecoderState)
    requires
        indexed_wf(q),
        q.width >= 1,
        q.height >= 1,
        fits(q.width, band_count(q.height)),
        runs_fit(q),
        every_band_drawn(q),
    ensures
        run_spec(initial_state(emitted_settings(transparent)), emitted_body(q), 0) == Ok::<
            DecoderState,
            ErrorView,
        >(t),
        strip_terminator(emitted_body(q)) == emitted_body(q),
        decoder_wf(t),
        t.max_x == q.width - 1,
        t.max_y == 6 * band_count(q.height) - 1,
        t.target_width == 0,
        t.target_height == 0,
        t.transparent_mode == transparent,
        painted(t, q, transparent, band_count(q.height), 0, 0),
{
    let bands = band_count(q.height);
    let defs = palette_defs(q.palette, q.palette.len() as int);
    let drawing = bands_bytes(q, bands);
    let body = emitted_body(q);
    lemma_bands_body(q, bands);
    assert(body.last() == drawing.last());
    let s0 = initial_state(emitted_settings(transparent));
    lemma_initial_state(transparent, q.width);
    assert(has_at(body, 0, body));
    lemma_has_at_split(body, 0, defs, drawing);
    assert(body[defs.len() as int] == drawing[0]);
    let s1 = lemma_palette_defs(s0, body, 0, q.palette, q.palette.len() as int, q.width);
    lemma_painted_start(s1, q, transparent);
    let s2 = lemma_bands(s1, body, defs.len() as int, q, bands, transparent);
    assert(run_spec(s2, body, body.len() as int) == Ok::<DecoderState, ErrorView>(s2));
    s2
}

/// What the decoder makes of the emitter's output: an image as wide as
/// the one written and as high as its bands, provided that every band
/// has something drawn in it, that no run is too long for a repeat
/// count, and that the image of whole bands is within the decoder's
/// limits.
pub proof fn lemma_decode_emitted(q: Indexed, transparent: bool)
    requires
        indexed_wf(q),
        q.width >= 1,
        q.height >= 1,
        fits(q.width, band_count(q.height)),
        runs_fit(q),
        every_band_drawn(q),
    ensures
        decode_spec(emit_spec(q, transparent)) matches Ok(image) && image.width == q.width
            && image.height == 6 * band_count(q.height) && image.has_transparency == transparent,
{
    lemma_emitted_envelope(q, transparent);
    let t = lemma_emitted_payload(q, transparent);
    let settings = emitted_settings(transparent);
    assert(final_width(t) == q.width);
    assert(final_height(t) == 6 * band_count(q.height));
    assert(guard_spec(q.width, 6 * band_count(q.height)) is None);
    assert(finalize_spec(t) is Ok);
    assert(decode_payload_spec(settings, emitted_body(q)) == finalize_spec(t));
    assert(settings == DcsSettings {
        aspect_ratio: settings.aspect_ratio,
        zero_color: settings.zero_color,
        grid_size: settings.grid_size,
    });
}

/// An image without transparent pixels, whose indices are all palette
/// colours, has something drawn in every band.
pub proof fn lemma_opaque_bands_drawn(
    rgba: Seq<u8>,
    width: int,
    height: int,
    flat: Seq<u8>,
    indices: Seq<u8>,
)
    requires
        check_input_spec(rgba.len() as int, width, height) is None,
        usable(flat, indices, width, height),
        !has_transparency_spec(rgba),
    ensures
        indexed_wf(indexed_of(palette_of(flat), indices, opacity_of(rgba), width, height)),
        every_band_drawn(
            indexed_of(palette_of(flat), indices, opacity_of(rgba), width, height),
        ),
{
    let q = indexed_of(palette_of(flat), indices, opacity_of(rgba), width, height);
    assert(width * height >= 1) by (nonlinear_arith)
        requires
            width >= 1,
            height >= 1,
    ;
    let pixels = width * height;
    assert(rgba.len() / 4 == pixels);
    assert forall|band: int| 0 <= band < band_count(height) implies #[trigger] band_drawn(
        q,
        band,
    ) by {
        let p = band_begin(q, band);
        assert(0 <= (6 * band) * width && (6 * band) * width + width <= height * width)
            by (nonlinear_arith)
            requires
                0 <= 6 * band < height,
                1 <= width,
        ;
        assert(6 * band * width == (6 * band) * width);
        assert(height * width == width * height) by (nonlinear_arith);
        if 6 * band + 6 < height {
            assert((6 * band) * width < (6 * band + 6) * width) by (nonlinear_arith)
                requires
                    1 <= width,
            ;
        }
        assert(band_begin(q, band) <= p < band_end(q, band));
        assert(0 <= p < pixels);
        assert(!(rgba[4 * p + 3] < 128));
        let c = indices[p] as int;
        assert(pixel_is(q, p, c));
        assert(0 <= c < q.palette.len() && color_used(q, band, c));
    }
}

/// Encoding and then decoding an image without transparent pixels
/// gives an image of the same width, as high as the first rounded up
/// to whole bands of six rows.
///
/// This is stated of every palette and every indices that describe the
/// image, so of whatever the quantizer makes of it. It holds where the
/// decoder can take the result: the image of whole bands is within the
/// decoder's limits, and no run of equal columns is longer than the
/// largest repeat count.
pub proof fn lemma_roundtrip_dimensions(
    rgba: Seq<u8>,
    width: int,
    height: int,
    flat: Seq<u8>,
    indices: Seq<u8>,
)
    requires
        encode_quantized_spec(rgba, width, height, flat, indices) is Ok,
        !has_transparency_spec(rgba),
        fits(width, band_count(height)),
        runs_fit(indexed_of(palette_of(flat), indices, opacity_of(rgba), width, height)),
    ensures
        decode_spec(encode_quantized_spec(rgba, width, height, flat, indices)->Ok_0) matches Ok(
            image,
        ) && image.width == width && image.height == 6 * band_count(height)
            && !image.has_transparency,
{
    lemma_opaque_bands_drawn(rgba, width, height, flat, indices);
    lemma_decode_emitted(
        indexed_of(palette_of(flat), indices, opacity_of(rgba), width, height),
        false,
    );
}

/// The indexed image that the encoder writes for an image, where the
/// quantizer gives one.
pub open spec fn quantized_image(
    rgba: Seq<u8>,
    width: int,
    height: int,
    opts: EncodeOptions,
) -> Indexed {
    let made = quantized(
        rgb_of(rgba),
        width as u32,
        height as u32,
        effective_colors(opts.max_colors),
        opts.quantize_method,
        opts.dither,
    )->Some_0;
    indexed_of(palette_of(made.0), made.1, opacity_of(rgba), width, height)
}

/// What the encoder writes for an image without transparent pixels
/// decodes to an image of the same width, as high as the first
/// rounded up to whole bands of six rows, provided that the decoder can
/// take it: the image of whole bands is within the decoder's limits,
/// and no run of equal columns is longer than the largest repeat count.
pub proof fn lemma_encode_decode_dimensions(
    rgba: Seq<u8>,
    width: int,
    height: int,
    opts: EncodeOptions,
)
    requires
        encode_spec(rgba, width, height, opts) is Ok,
        !has_transparency_spec(rgba),
        fits(width, band_count(height)),
        runs_fit(quantized_image(rgba, width, height, opts)),
    ensures
        decode_spec(encode_spec(rgba, width, height, opts)->Ok_0) matches Ok(image) && image.width
            == width && image.height == 6 * band_count(height) && !image.has_transparency,
{
    let made = quantized(
        rgb_of(rgba),
        width as u32,
        height as u32,
        effective_colors(opts.max_colors),
        opts.quantize_method,
        opts.dither,
    )->Some_0;
    lemma_roundtrip_dimensions(rgba, width, height, made.0, made.1);
}

/// A colour level that the emitter writes as a percentage and the
/// decoder reads back comes out at most two levels lower, and never
/// higher.
pub proof fn lemma_percent_round_trip(level: int)
    requires
        0 <= level <= 255,
    ensures
        level - 2 <= percent_to_byte_spec(byte_to_percent_spec(level)) <= level,
{
}

} // verus!
