//! The pixels that the decoder draws from the encoder's output.

use crate::canvas::{
    lemma_pixel_coords, lemma_pixel_offset_bound, pixel_at, pixel_offset, raster_wf, reshape,
    single_pixel, Raster,
};
use crate::color::{
    blue_of, byte_to_percent_spec, green_of, pack_rgb_spec, percent_to_byte_spec, red_of,
};
use crate::dcs::{parse_spec, strip_terminator, DcsSettings, Envelope};
use crate::decoder::{
    background_of, bit_set, color_spec, decode_payload_spec, decode_spec, decoder_wf,
    finalize_spec, initial_state, paint_column_spec, run_spec, step_spec, DecoderState,
    ImageView,
};
use crate::emitter::{
    band_begin, band_count, band_end, color_used, column_mask, decimal_digits, emit_spec,
    header_bytes, hit, hit_bit, indexed_of, indexed_wf, lemma_decimal_digits_ascii, pixel_is,
    trailer_bytes, Indexed, Rgb,
};
use crate::encoder::{
    effective_colors, encode_quantized_spec, encode_spec, has_transparency_spec, opacity_of,
    palette_of, rgb_of, EncodeOptions,
};
use crate::error::ErrorView;
use crate::palette::{
    default_registers, opaque_pixel, percent_color, set_rgb_percent_spec, transparent_pixel,
};
use crate::params::is_param_byte;
use crate::quantize::quantized;
use crate::roundtrip::{
    drawn_pixel, drew, emitted_body, emitted_settings, every_band_drawn, fits, has_at,
    lemma_color_at, lemma_emitted_envelope, lemma_emitted_header, lemma_emitted_payload,
    lemma_has_at_split, lemma_initial_state, lemma_opaque_bands_drawn, lemma_payload_end_at,
    lemma_percent_round_trip, lemma_run_step, lemma_select_params, lemma_sixel_at,
    quantized_image, runs_fit,
};
use vstd::prelude::*;

verus! {

/// A raster drawn at another size keeps the pixels it had, and has the
/// background where it had none.
pub proof fn lemma_reshape_pixel(
    r: Raster,
    width: int,
    height: int,
    background: Seq<u8>,
    x: int,
    y: int,
)
    requires
        raster_wf(r),
        background.len() == 4,
        0 <= x < width,
        0 <= y < height,
    ensures
        pixel_at(reshape(r, width, height, background), x, y) == if x < r.width && y < r.height {
            pixel_at(r, x, y)
        } else {
            background
        },
{
    let out = reshape(r, width, height, background);
    let at = pixel_offset(width, x, y);
    lemma_pixel_offset_bound(width, height, x, y);
    lemma_pixel_coords(width, x, y, 0);
    lemma_pixel_coords(width, x, y, 1);
    lemma_pixel_coords(width, x, y, 2);
    lemma_pixel_coords(width, x, y, 3);
    if x < r.width && y < r.height {
        lemma_pixel_offset_bound(r.width, r.height, x, y);
        assert(pixel_at(out, x, y) =~= pixel_at(r, x, y));
    } else {
        assert(pixel_at(out, x, y) =~= background);
    }
}

/// A column drawn on a raster sets the pixels whose bit is set, and
/// leaves every other pixel as it was.
pub proof fn lemma_paint_column_pixel(
    r: Raster,
    top: int,
    left: int,
    len: int,
    bits: int,
    color: Seq<u8>,
    x: int,
    y: int,
)
    requires
        raster_wf(r),
        color.len() == 4,
        0 <= x < r.width,
        0 <= y < r.height,
    ensures
        pixel_at(paint_column_spec(r, top, left, len, bits, color), x, y) == if left <= x < left
            + len && top <= y < top + 6 && bit_set(bits, y - top) {
            color
        } else {
            pixel_at(r, x, y)
        },
{
    let out = paint_column_spec(r, top, left, len, bits, color);
    lemma_pixel_offset_bound(r.width, r.height, x, y);
    lemma_pixel_coords(r.width, x, y, 0);
    lemma_pixel_coords(r.width, x, y, 1);
    lemma_pixel_coords(r.width, x, y, 2);
    lemma_pixel_coords(r.width, x, y, 3);
    if left <= x < left + len && top <= y < top + 6 && bit_set(bits, y - top) {
        assert(pixel_at(out, x, y) =~= color);
    } else {
        assert(pixel_at(out, x, y) =~= pixel_at(r, x, y));
    }
}

/// Bit `k` of a column of the emitter is set exactly where the pixel
/// `k` rows down in the band is a hit.
pub proof fn lemma_mask_bit(q: Indexed, band: int, x: int, c: int, k: int)
    requires
        0 <= k < 6,
    ensures
        bit_set(column_mask(q, band, x, c), k) == hit(q, x, 6 * band + k, c),
{
    let b0 = hit_bit(q, x, 6 * band, c, 1);
    let b1 = hit_bit(q, x, 6 * band + 1, c, 2);
    let b2 = hit_bit(q, x, 6 * band + 2, c, 4);
    let b3 = hit_bit(q, x, 6 * band + 3, c, 8);
    let b4 = hit_bit(q, x, 6 * band + 4, c, 16);
    let b5 = hit_bit(q, x, 6 * band + 5, c, 32);
    assert(column_mask(q, band, x, c) == b0 + b1 + b2 + b3 + b4 + b5);
    assert(b0 == 0 || b0 == 1);
    assert(b1 == 0 || b1 == 2);
    assert(b2 == 0 || b2 == 4);
    assert(b3 == 0 || b3 == 8);
    assert(b4 == 0 || b4 == 16);
    assert(b5 == 0 || b5 == 32);
}

/// The colour registers of the decoder after the first `n` colour
/// definitions of the emitter.
pub open spec fn registers_after(palette: Seq<Rgb>, n: int) -> Seq<u32>
    decreases n,
{
    if n <= 0 {
        default_registers()
    } else {
        set_rgb_percent_spec(
            registers_after(palette, n - 1),
            n - 1,
            byte_to_percent_spec(palette[n - 1].r as int),
            byte_to_percent_spec(palette[n - 1].g as int),
            byte_to_percent_spec(palette[n - 1].b as int),
        )
    }
}

/// The colour registers after all colour definitions.
pub open spec fn final_registers(q: Indexed) -> Seq<u32> {
    registers_after(q.palette, q.palette.len() as int)
}

/// The pixel that the decoder draws for palette colour `k`.
pub open spec fn color_pixel(q: Indexed, k: int) -> Seq<u8> {
    opaque_pixel(final_registers(q)[k] as int)
}

/// The pixel that the decoder gives to what is never drawn: nothing at
/// all in transparent mode, else register 0.
pub open spec fn backdrop(q: Indexed, transparent: bool) -> Seq<u8> {
    if transparent {
        transparent_pixel()
    } else {
        opaque_pixel(final_registers(q)[0] as int)
    }
}

/// The one pixel that the canvas has before anything is defined or
/// drawn.
pub open spec fn first_pixel(transparent: bool) -> Seq<u8> {
    if transparent {
        transparent_pixel()
    } else {
        opaque_pixel(default_registers()[0] as int)
    }
}

/// The palette index of the pixel at `(px, py)`.
pub open spec fn index_at(q: Indexed, px: int, py: int) -> int {
    q.indices[py * q.width + px] as int
}

/// Whether the pixel at `(px, py)` is drawn by the time the decoder
/// stands at column `x` of the pass of colour `c` in band `band`: it is
/// an opaque pixel of a palette colour, in a band above, or in this band
/// and of a colour before `c`, or of colour `c` and left of `x`.
pub open spec fn covered(q: Indexed, band: int, c: int, x: int, px: int, py: int) -> bool {
    &&& 0 <= px < q.width
    &&& 0 <= py < q.height
    &&& q.opaque[py * q.width + px]
    &&& index_at(q, px, py) < q.palette.len()
    &&& py < 6 * band || (py < 6 * band + 6 && (index_at(q, px, py) < c || (index_at(q, px, py)
        == c && px < x)))
}

/// The pixel that the canvas has at `(px, py)` at that time.
pub open spec fn canvas_pixel(
    q: Indexed,
    transparent: bool,
    band: int,
    c: int,
    x: int,
    px: int,
    py: int,
) -> Seq<u8> {
    if covered(q, band, c, x, px, py) {
        color_pixel(q, index_at(q, px, py))
    } else if px == 0 && py == 0 {
        first_pixel(transparent)
    } else {
        backdrop(q, transparent)
    }
}

/// Whether the decoder has drawn the image as far as column `x` of the
/// pass of colour `c` in band `band`, and nothing else.
pub open spec fn painted(
    s: DecoderState,
    q: Indexed,
    transparent: bool,
    band: int,
    c: int,
    x: int,
) -> bool {
    &&& s.palette == final_registers(q)
    &&& s.background_index == 0
    &&& s.transparent_mode == transparent
    &&& forall|px: int, py: int| #[trigger]
        covered(q, band, c, x, px, py) ==> px < s.canvas.width && py < s.canvas.height
    &&& forall|px: int, py: int|
        0 <= px < s.canvas.width && 0 <= py < s.canvas.height ==> #[trigger] pixel_at(
            s.canvas,
            px,
            py,
        ) == canvas_pixel(q, transparent, band, c, x, px, py)
}

/// A run of the pass of colour `c` draws the pixels of that colour in
/// its columns.
pub proof fn lemma_painted_run(
    s: DecoderState,
    t: DecoderState,
    q: Indexed,
    transparent: bool,
    band: int,
    c: int,
    x: int,
    n: int,
)
    requires
        decoder_wf(s),
        0 <= band,
        0 <= c < q.palette.len(),
        0 <= x,
        1 <= n,
        x + n <= q.width,
        painted(s, q, transparent, band, c, x),
        s.current_color == color_pixel(q, c),
        drew(s, t, x, n, band, column_mask(q, band, x, c)),
        forall|j: int|
            x <= j < x + n ==> column_mask(q, band, j, c) == column_mask(q, band, x, c),
    ensures
        painted(t, q, transparent, band, c, x + n),
        t.current_color == color_pixel(q, c),
{
    let mask = column_mask(q, band, x, c);
    assert forall|px: int, py: int| #[trigger]
        covered(q, band, c, x + n, px, py) implies px < t.canvas.width && py < t.canvas.height by {
        if covered(q, band, c, x, px, py) {
        }
    }
    assert forall|px: int, py: int|
        0 <= px < t.canvas.width && 0 <= py < t.canvas.height implies #[trigger] pixel_at(
        t.canvas,
        px,
        py,
    ) == canvas_pixel(q, transparent, band, c, x + n, px, py) by {
        assert(pixel_at(t.canvas, px, py) == drawn_pixel(s, x, n, band, mask, px, py));
        if x <= px < x + n && 6 * band <= py < 6 * band + 6 {
            lemma_mask_bit(q, band, px, c, py - 6 * band);
            assert(column_mask(q, band, px, c) == mask);
        }
        if px < s.canvas.width && py < s.canvas.height {
            assert(pixel_at(s.canvas, px, py) == canvas_pixel(q, transparent, band, c, x, px, py));
        } else {
            assert(!covered(q, band, c, x, px, py));
        }
    }
}

/// After the pass of colour `c` the decoder stands before the pass of
/// the next colour.
pub proof fn lemma_painted_next_color(
    s: DecoderState,
    q: Indexed,
    transparent: bool,
    band: int,
    c: int,
)
    requires
        painted(s, q, transparent, band, c, q.width),
    ensures
        painted(s, q, transparent, band, c + 1, 0),
{
    assert forall|px: int, py: int|
        covered(q, band, c + 1, 0, px, py) == covered(q, band, c, q.width, px, py) by {}
    assert forall|px: int, py: int|
        0 <= px < s.canvas.width && 0 <= py < s.canvas.height implies #[trigger] pixel_at(
        s.canvas,
        px,
        py,
    ) == canvas_pixel(q, transparent, band, c + 1, 0, px, py) by {
        assert(covered(q, band, c + 1, 0, px, py) == covered(q, band, c, q.width, px, py));
        assert(pixel_at(s.canvas, px, py) == canvas_pixel(
            q,
            transparent,
            band,
            c,
            q.width,
            px,
            py,
        ));
    }
    assert forall|px: int, py: int| #[trigger]
        covered(q, band, c + 1, 0, px, py) implies px < s.canvas.width && py < s.canvas.height by {
        assert(covered(q, band, c, q.width, px, py));
    }
}

/// A colour that a band does not use has no pixel in it, so there is
/// nothing to draw for it.
pub proof fn lemma_painted_unused_color(
    s: DecoderState,
    q: Indexed,
    transparent: bool,
    band: int,
    c: int,
)
    requires
        q.width >= 1,
        q.height >= 0,
        0 <= band,
        !color_used(q, band, c),
        painted(s, q, transparent, band, c, 0),
    ensures
        painted(s, q, transparent, band, c + 1, 0),
{
    assert forall|px: int, py: int|
        covered(q, band, c + 1, 0, px, py) == covered(q, band, c, 0, px, py) by {
        if covered(q, band, c + 1, 0, px, py) && !covered(q, band, c, 0, px, py) {
            let p = py * q.width + px;
            assert(6 * band <= py < 6 * band + 6 && py < q.height);
            assert((6 * band) * q.width <= py * q.width) by (nonlinear_arith)
                requires
                    6 * band <= py,
                    q.width >= 1,
            ;
            assert(6 * band * q.width == (6 * band) * q.width);
            if 6 * band + 6 < q.height {
                assert(py * q.width + q.width <= (6 * band + 6) * q.width) by (nonlinear_arith)
                    requires
                        py + 1 <= 6 * band + 6,
                        q.width >= 1,
                ;
            } else {
                assert(py * q.width + q.width <= q.height * q.width) by (nonlinear_arith)
                    requires
                        py + 1 <= q.height,
                        q.width >= 1,
                ;
            }
            assert(band_begin(q, band) <= p < band_end(q, band));
            assert(pixel_is(q, p, c));
        }
    }
    assert forall|px: int, py: int|
        0 <= px < s.canvas.width && 0 <= py < s.canvas.height implies #[trigger] pixel_at(
        s.canvas,
        px,
        py,
    ) == canvas_pixel(q, transparent, band, c + 1, 0, px, py) by {
        assert(covered(q, band, c + 1, 0, px, py) == covered(q, band, c, 0, px, py));
        assert(pixel_at(s.canvas, px, py) == canvas_pixel(q, transparent, band, c, 0, px, py));
    }
    assert forall|px: int, py: int| #[trigger]
        covered(q, band, c + 1, 0, px, py) implies px < s.canvas.width && py < s.canvas.height by {
        assert(covered(q, band, c + 1, 0, px, py) == covered(q, band, c, 0, px, py));
    }
}

/// After the passes of all colours of a band the decoder stands before
/// the first pass of the next band.
pub proof fn lemma_painted_next_band(s: DecoderState, q: Indexed, transparent: bool, band: int)
    requires
        painted(s, q, transparent, band, q.palette.len() as int, 0),
    ensures
        painted(s, q, transparent, band + 1, 0, 0),
{
    let n = q.palette.len() as int;
    assert forall|px: int, py: int|
        covered(q, band + 1, 0, 0, px, py) == covered(q, band, n, 0, px, py) by {}
    assert forall|px: int, py: int|
        0 <= px < s.canvas.width && 0 <= py < s.canvas.height implies #[trigger] pixel_at(
        s.canvas,
        px,
        py,
    ) == canvas_pixel(q, transparent, band + 1, 0, 0, px, py) by {
        assert(covered(q, band + 1, 0, 0, px, py) == covered(q, band, n, 0, px, py));
        assert(pixel_at(s.canvas, px, py) == canvas_pixel(q, transparent, band, n, 0, px, py));
    }
    assert forall|px: int, py: int| #[trigger]
        covered(q, band + 1, 0, 0, px, py) implies px < s.canvas.width && py < s.canvas.height by {
        assert(covered(q, band, n, 0, px, py));
    }
}

/// Once the colours are defined, and before anything is drawn, the
/// canvas is the one pixel it began with.
pub proof fn lemma_painted_start(s: DecoderState, q: Indexed, transparent: bool)
    requires
        s.palette == final_registers(q),
        s.background_index == 0,
        s.transparent_mode == transparent,
        s.canvas == single_pixel(first_pixel(transparent)),
    ensures
        painted(s, q, transparent, 0, 0, 0),
{
    let first = first_pixel(transparent);
    assert(first.len() == 4);
    assert(pixel_at(s.canvas, 0, 0) =~= first);
}

/// The four bytes of the pixel at `(x, y)` of a decoded image.
pub open spec fn image_pixel(image: ImageView, x: int, y: int) -> Seq<u8> {
    image.pixels.subrange((y * image.width + x) * 4, (y * image.width + x) * 4 + 4)
}

/// Whether the emitter draws the pixel at `(x, y)`: it is an opaque
/// pixel of a palette colour.
pub open spec fn is_drawn(q: Indexed, x: int, y: int) -> bool {
    &&& 0 <= x < q.width
    &&& 0 <= y < q.height
    &&& q.opaque[y * q.width + x]
    &&& index_at(q, x, y) < q.palette.len()
}

/// The pixel that the decoder has at `(x, y)` of the emitter's image:
/// the colour of its palette index where the emitter draws it, else the
/// backdrop.
pub open spec fn decoded_pixel(q: Indexed, transparent: bool, x: int, y: int) -> Seq<u8> {
    if is_drawn(q, x, y) {
        color_pixel(q, index_at(q, x, y))
    } else {
        backdrop(q, transparent)
    }
}

/// What the decoder makes of the emitter's output, pixel by pixel:
/// every pixel that the emitter draws has the colour of its palette
/// index, as the colour definitions give it; every other pixel is the
/// backdrop. This holds under the conditions of
/// [`lemma_decode_emitted`](crate::roundtrip::lemma_decode_emitted), and
/// where the first pixel is drawn or the background is transparent: the
/// first pixel is on the canvas before the colours are defined.
pub proof fn lemma_decode_emitted_pixel(q: Indexed, transparent: bool, x: int, y: int)
    requires
        indexed_wf(q),
        q.width >= 1,
        q.height >= 1,
        fits(q.width, band_count(q.height)),
        runs_fit(q),
        every_band_drawn(q),
        transparent || is_drawn(q, 0, 0),
        0 <= x < q.width,
        0 <= y < 6 * band_count(q.height),
    ensures
        decode_spec(emit_spec(q, transparent)) matches Ok(image) && image.width == q.width
            && image.height == 6 * band_count(q.height) && image_pixel(image, x, y)
            == decoded_pixel(q, transparent, x, y),
{
    let bands = band_count(q.height);
    lemma_emitted_envelope(q, transparent);
    let t = lemma_emitted_payload(q, transparent);
    let settings = emitted_settings(transparent);
    assert(decode_payload_spec(settings, emitted_body(q)) == finalize_spec(t));
    let background = background_of(t);
    assert(background == backdrop(q, transparent));
    assert(background.len() == 4);
    lemma_reshape_pixel(t.canvas, q.width, 6 * bands, background, x, y);
    assert(covered(q, bands, 0, 0, x, y) == is_drawn(q, x, y));
    assert(covered(q, bands, 0, 0, 0, 0) == is_drawn(q, 0, 0));
    if x < t.canvas.width && y < t.canvas.height {
        assert(pixel_at(t.canvas, x, y) == canvas_pixel(q, transparent, bands, 0, 0, x, y));
    } else {
        assert(!covered(q, bands, 0, 0, x, y));
    }
}

/// A register keeps the colour of its definition: the channels in
/// percent, brought back to levels.
pub proof fn lemma_register_value(palette: Seq<Rgb>, n: int, k: int)
    requires
        0 <= k < n <= 256,
    ensures
        registers_after(palette, n).len() == 256,
        registers_after(palette, n)[k] == percent_color(
            byte_to_percent_spec(palette[k].r as int),
            byte_to_percent_spec(palette[k].g as int),
            byte_to_percent_spec(palette[k].b as int),
        ),
    decreases n,
{
    lemma_registers_len(palette, n - 1);
    if k < n - 1 {
        lemma_register_value(palette, n - 1, k);
    }
}

/// There are always 256 registers.
pub proof fn lemma_registers_len(palette: Seq<Rgb>, n: int)
    ensures
        registers_after(palette, n).len() == 256,
    decreases n,
{
    if n > 0 {
        lemma_registers_len(palette, n - 1);
    }
}

/// Three levels packed into one colour come out again as they went in.
pub proof fn lemma_unpack(r: int, g: int, b: int)
    requires
        0 <= r <= 255,
        0 <= g <= 255,
        0 <= b <= 255,
    ensures
        0 <= pack_rgb_spec(r, g, b) < 0x1000000,
        red_of(pack_rgb_spec(r, g, b)) == r,
        green_of(pack_rgb_spec(r, g, b)) == g,
        blue_of(pack_rgb_spec(r, g, b)) == b,
{
}

/// The pixel of a packed colour has its three levels and full opacity.
pub proof fn lemma_opaque_pixel_of(r: int, g: int, b: int)
    requires
        0 <= r <= 255,
        0 <= g <= 255,
        0 <= b <= 255,
    ensures
        opaque_pixel((pack_rgb_spec(r, g, b) as u32) as int) == seq![
            r as u8,
            g as u8,
            b as u8,
            0xFFu8,
        ],
{
    lemma_unpack(r, g, b);
    let packed = pack_rgb_spec(r, g, b);
    assert((packed as u32) as int == packed);
    assert(opaque_pixel(packed) =~= seq![r as u8, g as u8, b as u8, 0xFFu8]);
}

/// The level that a percentage written for a level reads back as.
pub open spec fn level_read_back(level: int) -> int {
    percent_to_byte_spec(byte_to_percent_spec(level))
}

/// The pixel that the decoder draws for a palette colour: each channel
/// written in percent and read back, so at most two levels lower and
/// never higher; fully opaque.
pub proof fn lemma_color_pixel(q: Indexed, k: int)
    requires
        0 <= k < q.palette.len() <= 256,
    ensures
        color_pixel(q, k) == seq![
            level_read_back(q.palette[k].r as int) as u8,
            level_read_back(q.palette[k].g as int) as u8,
            level_read_back(q.palette[k].b as int) as u8,
            0xFFu8,
        ],
        q.palette[k].r - 2 <= color_pixel(q, k)[0] <= q.palette[k].r,
        q.palette[k].g - 2 <= color_pixel(q, k)[1] <= q.palette[k].g,
        q.palette[k].b - 2 <= color_pixel(q, k)[2] <= q.palette[k].b,
        color_pixel(q, k)[3] == 0xFF,
{
    lemma_register_value(q.palette, q.palette.len() as int, k);
    let r = level_read_back(q.palette[k].r as int);
    let g = level_read_back(q.palette[k].g as int);
    let b = level_read_back(q.palette[k].b as int);
    lemma_percent_round_trip(q.palette[k].r as int);
    lemma_percent_round_trip(q.palette[k].g as int);
    lemma_percent_round_trip(q.palette[k].b as int);
    assert(0 <= r <= 255 && 0 <= g <= 255 && 0 <= b <= 255);
    lemma_opaque_pixel_of(r, g, b);
    assert(final_registers(q)[k] == pack_rgb_spec(r, g, b) as u32);
}

/// Encoding and then decoding an image without transparent pixels
/// gives every pixel the colour that the quantizer chose for it, each
/// channel at most two levels lower and never higher, fully opaque.
///
/// This is stated of every palette and every indices that describe the
/// image, so of whatever the quantizer makes of it. It holds where the
/// decoder can take the result: the image of whole bands is within the
/// decoder's limits, and no run of equal columns is longer than the
/// largest repeat count.
pub proof fn lemma_roundtrip_pixel(
    rgba: Seq<u8>,
    width: int,
    height: int,
    flat: Seq<u8>,
    indices: Seq<u8>,
    x: int,
    y: int,
)
    requires
        encode_quantized_spec(rgba, width, height, flat, indices) is Ok,
        !has_transparency_spec(rgba),
        fits(width, band_count(height)),
        runs_fit(indexed_of(palette_of(flat), indices, opacity_of(rgba), width, height)),
        0 <= x < width,
        0 <= y < height,
    ensures
        decode_spec(encode_quantized_spec(rgba, width, height, flat, indices)->Ok_0) matches Ok(
            image,
        ) && {
            let got = image_pixel(image, x, y);
            let chosen = indices[y * width + x] as int;
            &&& got.len() == 4
            &&& flat[3 * chosen] - 2 <= got[0] <= flat[3 * chosen]
            &&& flat[3 * chosen + 1] - 2 <= got[1] <= flat[3 * chosen + 1]
            &&& flat[3 * chosen + 2] - 2 <= got[2] <= flat[3 * chosen + 2]
            &&& got[3] == 0xFF
        },
{
    let q = indexed_of(palette_of(flat), indices, opacity_of(rgba), width, height);
    lemma_opaque_bands_drawn(rgba, width, height, flat, indices);
    assert(0 <= y * width + x < width * height) by (nonlinear_arith)
        requires
            0 <= x < width,
            0 <= y < height,
    ;
    assert(width * height >= 1) by (nonlinear_arith)
        requires
            width >= 1,
            height >= 1,
    ;
    let p = y * width + x;
    assert(rgba.len() / 4 == width * height);
    assert(!(rgba[4 * p + 3] < 128));
    assert(!(rgba[4 * 0int + 3] < 128));
    assert(indices[p] < flat.len() / 3);
    assert(indices[0] < flat.len() / 3);
    assert(is_drawn(q, x, y));
    assert(0int * width + 0 == 0);
    assert(is_drawn(q, 0, 0));
    lemma_decode_emitted_pixel(q, false, x, y);
    lemma_color_pixel(q, indices[p] as int);
}

/// What the encoder writes for an image without transparent pixels
/// decodes, pixel by pixel, to the colours that the quantizer chose,
/// each channel at most two levels lower and never higher, fully
/// opaque; provided that the decoder can take it, as in
/// [`lemma_roundtrip_pixel`].
pub proof fn lemma_encode_decode_pixel(
    rgba: Seq<u8>,
    width: int,
    height: int,
    opts: EncodeOptions,
    x: int,
    y: int,
)
    requires
        encode_spec(rgba, width, height, opts) is Ok,
        !has_transparency_spec(rgba),
        fits(width, band_count(height)),
        runs_fit(quantized_image(rgba, width, height, opts)),
        0 <= x < width,
        0 <= y < height,
    ensures
        decode_spec(encode_spec(rgba, width, height, opts)->Ok_0) matches Ok(image) && {
            let got = image_pixel(image, x, y);
            let chosen = quantized_image(rgba, width, height, opts).palette[quantized_image(
                rgba,
                width,
                height,
                opts,
            ).indices[y * width + x] as int];
            &&& got.len() == 4
            &&& chosen.r - 2 <= got[0] <= chosen.r
            &&& chosen.g - 2 <= got[1] <= chosen.g
            &&& chosen.b - 2 <= got[2] <= chosen.b
            &&& got[3] == 0xFF
        },
{
    let made = quantized(
        rgb_of(rgba),
        width as u32,
        height as u32,
        effective_colors(opts.max_colors),
        opts.quantize_method,
        opts.dither,
    )->Some_0;
    lemma_roundtrip_pixel(rgba, width, height, made.0, made.1, x, y);
    assert(0 <= y * width + x < width * height) by (nonlinear_arith)
        requires
            0 <= x < width,
            0 <= y < height,
    ;
}

/// The sequence that draws a full column in colour `a`, returns to its
/// left edge and draws the bottom pixel in colour `b`.
pub open spec fn overlay_sequence(a: int, b: int) -> Seq<u8> {
    header_bytes(false) + overlay_payload(a, b) + trailer_bytes()
}

/// The payload of [`overlay_sequence`]: `#a~$#b_`.
pub open spec fn overlay_payload(a: int, b: int) -> Seq<u8> {
    seq![0x23u8] + decimal_digits(a) + seq![0x7eu8, 0x24u8, 0x23u8] + decimal_digits(b)
        + seq![0x5fu8]
}

/// Where the parts of the overlay payload stand: `#`, the digits of
/// `a`, `~$#`, the digits of `b`, and `_`; all of them printable.
pub proof fn lemma_overlay_layout(a: int, b: int)
    requires
        0 <= a,
        0 <= b,
    ensures
        ({
            let body = overlay_payload(a, b);
            let first = 1 + decimal_digits(a).len() as int;
            let second = first + 3 + decimal_digits(b).len() as int;
            &&& body.len() == second + 1
            &&& body[0] == 0x23
            &&& has_at(body, 1, decimal_digits(a))
            &&& body[first] == 0x7e
            &&& body[first + 1] == 0x24
            &&& body[first + 2] == 0x23
            &&& has_at(body, first + 3, decimal_digits(b))
            &&& body[second] == 0x5f
            &&& forall|k: int| 0 <= k < body.len() ==> 0x21 <= #[trigger] body[k] <= 0x7e
            &&& forall|k: int| 1 <= k < first ==> is_param_byte(#[trigger] body[k])
            &&& forall|k: int|
                first + 3 <= k < second ==> is_param_byte(#[trigger] body[k])
        }),
{
    let da = decimal_digits(a);
    let db = decimal_digits(b);
    let body = overlay_payload(a, b);
    lemma_decimal_digits_ascii(a);
    lemma_decimal_digits_ascii(b);
    let mid = seq![0x7eu8, 0x24u8, 0x23u8];
    let last = seq![0x5fu8];
    assert(body =~= seq![0x23u8] + (da + (mid + (db + last))));
    assert(has_at(body, 0, body));
    lemma_has_at_split(body, 0, seq![0x23u8], da + (mid + (db + last)));
    lemma_has_at_split(body, 1, da, mid + (db + last));
    let first: int = 1 + da.len() as int;
    lemma_has_at_split(body, first, mid, db + last);
    lemma_has_at_split(body, first + 3, db, last);
    let second: int = first + 3 + db.len() as int;
    assert(body[0int + 0] == seq![0x23u8][0]);
    assert(body[first + 0] == mid[0] && body[first + 1] == mid[1] && body[first + 2] == mid[2]);
    assert(body[second + 0] == last[0]);
    assert forall|k: int| 1 <= k < first implies is_param_byte(
        #[trigger] body[k],
    ) by {
        assert(body[1 + (k - 1)] == da[k - 1]);
    }
    assert forall|k: int| first + 3 <= k < second implies is_param_byte(
        #[trigger] body[k],
    ) by {
        assert(body[first + 3 + (k - first - 3)] == db[k - first - 3]);
    }
}

/// The decoder finds the overlay payload in the overlay sequence.
pub proof fn lemma_overlay_envelope(a: int, b: int)
    requires
        0 <= a,
        0 <= b,
    ensures
        parse_spec(overlay_sequence(a, b)) == Ok::<Envelope, ErrorView>(
            Envelope {
                aspect_ratio: None,
                zero_color: None,
                grid_size: None,
                payload: overlay_payload(a, b),
            },
        ),
        strip_terminator(overlay_payload(a, b)) == overlay_payload(a, b),
{
    let body = overlay_payload(a, b);
    let data = overlay_sequence(a, b);
    lemma_overlay_layout(a, b);
    let start = 3int;
    let end: int = start + body.len() as int;
    assert(data =~= header_bytes(false) + (body + trailer_bytes()));
    assert(data[end] == 0x1b && data[end + 1] == 0x5c);
    assert forall|k: int| start <= k < end implies 0x21 <= #[trigger] data[k] <= 0x7e by {
        assert(data[k] == body[k - start]);
    }
    lemma_payload_end_at(data, start, end);
    assert(data.subrange(start, end) =~= body);
    assert(has_at(data, 0, header_bytes(false)));
    lemma_emitted_header(data, false);
}

/// The state in which the decoder ends the overlay payload: a canvas of
/// one column of six pixels, the upper five in colour `a`, the last in
/// colour `b`.
pub proof fn lemma_overlay_payload(a: int, b: int) -> (t: DecoderState)
    requires
        0 <= a <= 255,
        0 <= b <= 255,
    ensures
        run_spec(initial_state(emitted_settings(false)), overlay_payload(a, b), 0) == Ok::<
            DecoderState,
            ErrorView,
        >(t),
        decoder_wf(t),
        t.canvas.width == 1,
        t.canvas.height == 6,
        t.max_x == 0,
        t.max_y == 5,
        t.target_width == 0,
        t.target_height == 0,
        forall|y: int|
            0 <= y < 5 ==> #[trigger] pixel_at(t.canvas, 0, y) == opaque_pixel(
                default_registers()[a] as int,
            ),
        pixel_at(t.canvas, 0, 5) == opaque_pixel(default_registers()[b] as int),
{
    let body = overlay_payload(a, b);
    lemma_overlay_layout(a, b);
    let first: int = 1 + decimal_digits(a).len() as int;
    let second: int = first + 3 + decimal_digits(b).len() as int;
    let s0 = initial_state(emitted_settings(false));
    lemma_initial_state(false, 1);
    let s1 = lemma_color_at(s0, body, 0, first, 1, 0, 0);
    lemma_select_params(body, 1, a);
    assert(s1 == color_spec(s0, seq![a]));
    let s2 = lemma_sixel_at(s1, body, first, 1, 0, 1);
    let s3 = DecoderState { pos_x: 0, ..s2 };
    assert(step_spec(s2, body, first + 1) == Ok::<(DecoderState, int), ErrorView>(
        (s3, first + 2),
    ));
    lemma_run_step(s2, body, first + 1, s3, first + 2);
    let s4 = lemma_color_at(s3, body, first + 2, second, 1, 0, 0);
    lemma_select_params(body, first + 3, b);
    assert(s4 == color_spec(s3, seq![b]));
    let s5 = lemma_sixel_at(s4, body, second, 1, 0, 1);
    assert(run_spec(s5, body, second + 1) == Ok::<DecoderState, ErrorView>(s5));
    assert(s2.canvas.width == 1 && s2.canvas.height == 6);
    assert(s5.canvas.width == 1 && s5.canvas.height == 6);
    assert forall|y: int| 0 <= y < 6 implies #[trigger] pixel_at(s5.canvas, 0, y) == opaque_pixel(
        default_registers()[if y < 5 {
            a
        } else {
            b
        }] as int,
    ) by {
        assert(pixel_at(s5.canvas, 0, y) == drawn_pixel(s4, 0, 1, 0, 0x5f - 0x3f, 0, y));
        assert(pixel_at(s2.canvas, 0, y) == drawn_pixel(s1, 0, 1, 0, 0x7e - 0x3f, 0, y));
        assert(bit_set(63, y));
        assert(bit_set(32, y) == (y == 5));
    }
    s5
}

/// Overlay: a second pass over a column changes only the pixels whose
/// bit it sets. After a full column in colour `a`, a return to the left
/// edge and the bottom pixel in colour `b`, the image is one column of
/// six pixels: the upper five in colour `a`, the last in colour `b`.
pub proof fn lemma_overlay(a: int, b: int, y: int)
    requires
        0 <= a <= 255,
        0 <= b <= 255,
        0 <= y < 6,
    ensures
        decode_spec(overlay_sequence(a, b)) matches Ok(image) && image.width == 1 && image.height
            == 6 && image_pixel(image, 0, y) == opaque_pixel(
            default_registers()[if y < 5 {
                a
            } else {
                b
            }] as int,
        ),
{
    lemma_overlay_envelope(a, b);
    let t = lemma_overlay_payload(a, b);
    let settings = emitted_settings(false);
    assert(decode_payload_spec(settings, overlay_payload(a, b)) == finalize_spec(t));
    lemma_reshape_pixel(t.canvas, 1, 6, background_of(t), 0, y);
    assert(settings == DcsSettings { aspect_ratio: None, zero_color: None, grid_size: None });
}

} // verus!
