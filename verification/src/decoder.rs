//! The SIXEL interpreter: a byte-by-byte state machine that draws the
//! payload of a Device Control String on a canvas.

use crate::canvas::{
    byte_x, byte_y, ensure_visible_spec, in_span, larger, lemma_reshape_wf, paint_spec,
    raster_opaque, raster_wf, reshape, single_pixel, Canvas, Raster,
};
use crate::dcs::{
    parse_spec, pixel_aspect, pixel_aspect_spec, strip_string_terminator, strip_terminator,
    AnsiPayload, DcsSettings,
};
use crate::error::{
    malformed_data, malformed_error, too_large, too_large_error, ErrorView, SixelError,
};
use crate::limits::{
    lemma_mul_bounded, MAX_PIXELS, MAX_REPEAT, SIXEL_CELL_HEIGHT, SIXEL_HEIGHT_LIMIT,
    SIXEL_PALETTE_MAX, SIXEL_WIDTH_LIMIT,
};
use crate::palette::{
    clamp_register, default_registers, opaque_pixel, set_hls_spec, set_rgb_percent_spec,
    transparent_pixel, Palette,
};
use crate::params::{
    collect_params, decimal_value, digits_end, lemma_digits_end_bounds,
    lemma_params_end_bounds, param_list, params_end, read_number, smaller,
};
use vstd::prelude::*;

verus! {

/// The state of the interpreter as a mathematical value.
pub struct DecoderState {
    pub canvas: Raster,
    pub palette: Seq<u32>,
    pub color_index: int,
    pub current_color: Seq<u8>,
    pub repeat: int,
    pub pos_x: int,
    pub pos_y: int,
    pub max_x: int,
    pub max_y: int,
    pub pan: int,
    pub pad: int,
    pub target_width: int,
    pub target_height: int,
    pub background_index: int,
    pub transparent_mode: bool,
}

/// What holds of the state between any two commands.
pub open spec fn decoder_wf(s: DecoderState) -> bool {
    &&& raster_wf(s.canvas)
    &&& s.palette.len() == SIXEL_PALETTE_MAX
    &&& 0 <= s.color_index < SIXEL_PALETTE_MAX
    &&& s.current_color.len() == 4
    &&& s.current_color[3] == 0xFFu8
    &&& 1 <= s.repeat <= MAX_REPEAT
    &&& 0 <= s.pos_x <= SIXEL_WIDTH_LIMIT
    &&& 0 <= s.pos_y <= usize::MAX
    &&& 0 <= s.max_x < SIXEL_WIDTH_LIMIT
    &&& 0 <= s.max_y < SIXEL_HEIGHT_LIMIT
    &&& 1 <= s.pan <= i32::MAX
    &&& 1 <= s.pad <= i32::MAX
    &&& 0 <= s.target_width <= SIXEL_WIDTH_LIMIT
    &&& 0 <= s.target_height <= SIXEL_HEIGHT_LIMIT
    &&& 0 <= s.background_index < SIXEL_PALETTE_MAX
    &&& !s.transparent_mode ==> raster_opaque(s.canvas)
}

/// The pixel that fills what was never drawn: nothing at all in
/// transparent mode, else the background register.
pub open spec fn background_of(s: DecoderState) -> Seq<u8> {
    if s.transparent_mode {
        transparent_pixel()
    } else {
        opaque_pixel(s.palette[clamp_register(s.background_index)] as int)
    }
}

/// The state before the first byte of the payload.
pub open spec fn initial_state(settings: DcsSettings) -> DecoderState {
    let transparent = settings.zero_color == Some(1u16);
    let first = opaque_pixel(default_registers()[0] as int);
    let aspect = pixel_aspect_spec(settings.aspect_ratio, settings.grid_size);
    DecoderState {
        canvas: single_pixel(
            if transparent {
                transparent_pixel()
            } else {
                first
            },
        ),
        palette: default_registers(),
        color_index: 0,
        current_color: first,
        repeat: 1,
        pos_x: 0,
        pos_y: 0,
        max_x: 0,
        max_y: 0,
        pan: aspect.0,
        pad: aspect.1,
        target_width: 0,
        target_height: 0,
        background_index: 0,
        transparent_mode: transparent,
    }
}

/// Whether bit `k` of a six-pixel column is set; bit 0 is the top pixel.
pub open spec fn bit_set(bits: int, k: int) -> bool {
    if k == 0 {
        bits % 2 == 1
    } else if k == 1 {
        (bits / 2) % 2 == 1
    } else if k == 2 {
        (bits / 4) % 2 == 1
    } else if k == 3 {
        (bits / 8) % 2 == 1
    } else if k == 4 {
        (bits / 16) % 2 == 1
    } else if k == 5 {
        (bits / 32) % 2 == 1
    } else {
        false
    }
}

/// Whether a six-pixel column has any bit set.
pub open spec fn any_bit_set(bits: int) -> bool {
    bit_set(bits, 0) || bit_set(bits, 1) || bit_set(bits, 2) || bit_set(bits, 3) || bit_set(
        bits,
        4,
    ) || bit_set(bits, 5)
}

/// Whether byte `i` belongs to a pixel that a column drawn `len` pixels
/// wide sets: one in columns `x..x + len`, in a row `y + k` whose bit
/// `k` is set.
pub open spec fn in_column(width: int, y: int, x: int, len: int, bits: int, i: int) -> bool {
    &&& x <= byte_x(width, i) < x + len
    &&& y <= byte_y(width, i) < y + 6
    &&& bit_set(bits, byte_y(width, i) - y)
}

/// `r` with the set bits of a six-pixel column drawn `len` pixels wide at
/// `(x, y)`. Pixels whose bit is clear stay as they are.
pub open spec fn paint_column_spec(
    r: Raster,
    y: int,
    x: int,
    len: int,
    bits: int,
    color: Seq<u8>,
) -> Raster {
    Raster {
        width: r.width,
        height: r.height,
        data: Seq::new(
            r.data.len(),
            |i: int|
                if in_column(r.width, y, x, len, bits, i) {
                    color[i % 4]
                } else {
                    r.data[i]
                },
        ),
    }
}

/// `r` with the first `rows` rows of a six-pixel column drawn, one span
/// for each set bit, from the top down.
pub open spec fn paint_rows(
    r: Raster,
    y: int,
    x: int,
    len: int,
    bits: int,
    color: Seq<u8>,
    rows: int,
) -> Raster
    decreases rows,
{
    if rows <= 0 {
        r
    } else {
        let above = paint_rows(r, y, x, len, bits, color, rows - 1);
        if bit_set(bits, rows - 1) {
            paint_spec(above, y + rows - 1, x, len, color)
        } else {
            above
        }
    }
}

/// Drawing the rows of a column one span at a time gives the column,
/// and keeps the raster well formed, and opaque where the colour is.
pub proof fn lemma_paint_column(r: Raster, y: int, x: int, len: int, bits: int, color: Seq<u8>)
    requires
        raster_wf(r),
        color.len() == 4,
    ensures
        paint_rows(r, y, x, len, bits, color, 6) == paint_column_spec(r, y, x, len, bits, color),
        raster_wf(paint_column_spec(r, y, x, len, bits, color)),
        raster_opaque(r) && color[3] == 0xFFu8 ==> raster_opaque(
            paint_column_spec(r, y, x, len, bits, color),
        ),
{
    let c0 = paint_rows(r, y, x, len, bits, color, 0);
    let c1 = paint_rows(r, y, x, len, bits, color, 1);
    let c2 = paint_rows(r, y, x, len, bits, color, 2);
    let c3 = paint_rows(r, y, x, len, bits, color, 3);
    let c4 = paint_rows(r, y, x, len, bits, color, 4);
    let c5 = paint_rows(r, y, x, len, bits, color, 5);
    let c6 = paint_rows(r, y, x, len, bits, color, 6);
    let want = paint_column_spec(r, y, x, len, bits, color);
    assert(c0 == r);
    assert(c1.data.len() == r.data.len() && c1.width == r.width && c1.height == r.height);
    assert(c2.data.len() == r.data.len() && c2.width == r.width && c2.height == r.height);
    assert(c3.data.len() == r.data.len() && c3.width == r.width && c3.height == r.height);
    assert(c4.data.len() == r.data.len() && c4.width == r.width && c4.height == r.height);
    assert(c5.data.len() == r.data.len() && c5.width == r.width && c5.height == r.height);
    assert(c6.data.len() == r.data.len() && c6.width == r.width && c6.height == r.height);
    assert forall|i: int| 0 <= i < r.data.len() implies c6.data[i] == want.data[i] by {
        let by = byte_y(r.width, i);
        assert(c1.data[i] == if in_span(r.width, y, x, len, i) && bit_set(bits, 0) {
            color[i % 4]
        } else {
            r.data[i]
        });
        assert(c2.data[i] == if in_span(r.width, y + 1, x, len, i) && bit_set(bits, 1) {
            color[i % 4]
        } else {
            c1.data[i]
        });
        assert(c3.data[i] == if in_span(r.width, y + 2, x, len, i) && bit_set(bits, 2) {
            color[i % 4]
        } else {
            c2.data[i]
        });
        assert(c4.data[i] == if in_span(r.width, y + 3, x, len, i) && bit_set(bits, 3) {
            color[i % 4]
        } else {
            c3.data[i]
        });
        assert(c5.data[i] == if in_span(r.width, y + 4, x, len, i) && bit_set(bits, 4) {
            color[i % 4]
        } else {
            c4.data[i]
        });
        assert(c6.data[i] == if in_span(r.width, y + 5, x, len, i) && bit_set(bits, 5) {
            color[i % 4]
        } else {
            c5.data[i]
        });
    }
    assert(c6.data =~= want.data);
}

/// The state after the six-pixel column `ch`: the canvas grown to hold
/// it, the set bits drawn in the current colour `repeat` pixels wide,
/// the cursor moved right, the repeat count back at 1.
pub open spec fn sixel_spec(s: DecoderState, ch: u8) -> Result<DecoderState, ErrorView> {
    let bits = ch - 0x3f;
    let span = larger(s.repeat, 1);
    let width_needed = s.pos_x + span;
    let height_needed = s.pos_y + SIXEL_CELL_HEIGHT;
    if width_needed > SIXEL_WIDTH_LIMIT || height_needed > SIXEL_HEIGHT_LIMIT {
        Err(malformed_data())
    } else {
        match ensure_visible_spec(s.canvas, width_needed, height_needed, background_of(s)) {
            None => Err(too_large()),
            Some(grown) => Ok(
                DecoderState {
                    canvas: paint_column_spec(
                        grown,
                        s.pos_y,
                        s.pos_x,
                        span,
                        bits,
                        s.current_color,
                    ),
                    repeat: 1,
                    pos_x: width_needed,
                    max_x: larger(s.max_x, width_needed - 1),
                    max_y: if any_bit_set(bits) {
                        larger(s.max_y, height_needed - 1)
                    } else {
                        s.max_y
                    },
                    ..s
                },
            ),
        }
    }
}

/// The register that a colour command selects.
pub open spec fn selected_register(first: int) -> int {
    smaller(larger(first, 0), SIXEL_PALETTE_MAX - 1)
}

/// The state after a colour command with the parameters `params`: the
/// first selects a register; with five of them the second names a
/// colour space, 1 for HLS and 2 for RGB in percent, and the other three
/// define the register in it.
pub open spec fn color_spec(s: DecoderState, params: Seq<int>) -> DecoderState {
    if params.len() == 0 {
        DecoderState { color_index: 0, ..s }
    } else {
        let index = selected_register(params[0]);
        let palette = if params.len() >= 5 && params[1] == 1 {
            set_hls_spec(s.palette, index, params[2], params[3], params[4])
        } else if params.len() >= 5 && params[1] == 2 {
            set_rgb_percent_spec(s.palette, index, params[2], params[3], params[4])
        } else {
            s.palette
        };
        DecoderState {
            color_index: index,
            palette,
            current_color: opaque_pixel(palette[index] as int),
            ..s
        }
    }
}

/// Why an image of `width` by `height` pixels is refused, if it is.
pub open spec fn guard_spec(width: int, height: int) -> Option<ErrorView> {
    if width > SIXEL_WIDTH_LIMIT || height > SIXEL_HEIGHT_LIMIT {
        Some(malformed_data())
    } else if width * height > MAX_PIXELS {
        Some(too_large())
    } else {
        None
    }
}

/// The state with the pixel shape of a raster-attributes command, each
/// part at least 1.
pub open spec fn raster_shape(s: DecoderState, params: Seq<int>) -> DecoderState {
    DecoderState {
        pad: if params.len() > 0 {
            larger(params[0], 1)
        } else {
            s.pad
        },
        pan: if params.len() > 1 {
            larger(params[1], 1)
        } else {
            s.pan
        },
        ..s
    }
}

/// The width that a raster-attributes command declares, or the one
/// declared before where it gives none.
pub open spec fn raster_target_width(s: DecoderState, params: Seq<int>) -> int {
    if params.len() > 2 && params[2] > 0 {
        params[2]
    } else {
        s.target_width
    }
}

/// The height that a raster-attributes command declares, or the one
/// declared before where it gives none.
pub open spec fn raster_target_height(s: DecoderState, params: Seq<int>) -> int {
    if params.len() > 3 && params[3] > 0 {
        params[3]
    } else {
        s.target_height
    }
}

/// The state with a declared size: where one is declared, it must be
/// within the limits, and the canvas is grown to it at once.
pub open spec fn target_spec(s: DecoderState, target_width: int, target_height: int) -> Result<
    DecoderState,
    ErrorView,
> {
    let next = DecoderState { target_width, target_height, ..s };
    if target_width > 0 || target_height > 0 {
        let width = larger(target_width, 1);
        let height = larger(target_height, 1);
        match guard_spec(width, height) {
            Some(e) => Err(e),
            None => match ensure_visible_spec(s.canvas, width, height, background_of(s)) {
                None => Err(too_large()),
                Some(grown) => Ok(DecoderState { canvas: grown, ..next }),
            },
        }
    } else {
        Ok(next)
    }
}

/// The state after a raster-attributes command with the parameters
/// `params`: pixel shape, width and height, in that order.
pub open spec fn raster_spec(s: DecoderState, params: Seq<int>) -> Result<DecoderState, ErrorView> {
    target_spec(
        raster_shape(s, params),
        raster_target_width(s, params),
        raster_target_height(s, params),
    )
}

/// The first `limit` parameters of the list at `start`.
pub open spec fn leading_params(data: Seq<u8>, start: int, limit: int) -> Seq<int> {
    let all = param_list(data, start, i32::MAX as int);
    all.subrange(0, smaller(all.len() as int, limit))
}

/// The state after the command at `idx`, and the index of the next one.
pub open spec fn step_spec(s: DecoderState, data: Seq<u8>, idx: int) -> Result<
    (DecoderState, int),
    ErrorView,
> {
    let b = data[idx];
    if b == 0x24 {
        Ok((DecoderState { pos_x: 0, ..s }, idx + 1))
    } else if b == 0x2d {
        if s.pos_y + SIXEL_CELL_HEIGHT > usize::MAX {
            Err(ErrorView::IntegerOverflow)
        } else {
            Ok((DecoderState { pos_x: 0, pos_y: s.pos_y + SIXEL_CELL_HEIGHT, ..s }, idx + 1))
        }
    } else if b == 0x21 {
        let end = digits_end(data, idx + 1);
        let value = decimal_value(data, idx + 1, end);
        if value > MAX_REPEAT {
            Err(malformed_data())
        } else {
            Ok((DecoderState { repeat: larger(value, 1), ..s }, end))
        }
    } else if b == 0x23 {
        Ok((color_spec(s, leading_params(data, idx + 1, 5)), params_end(data, idx + 1)))
    } else if b == 0x22 {
        match raster_spec(s, leading_params(data, idx + 1, 4)) {
            Err(e) => Err(e),
            Ok(next) => Ok((next, params_end(data, idx + 1))),
        }
    } else if 0x3f <= b <= 0x7e {
        match sixel_spec(s, b) {
            Err(e) => Err(e),
            Ok(next) => Ok((next, idx + 1)),
        }
    } else {
        Ok((s, idx + 1))
    }
}

/// The state after all commands from `idx` on, up to the end of the
/// data or the first `ESC` or `0x9C`.
pub open spec fn run_spec(s: DecoderState, data: Seq<u8>, idx: int) -> Result<
    DecoderState,
    ErrorView,
>
    decreases data.len() - idx,
{
    if idx < 0 || idx >= data.len() || data[idx] == 0x1b || data[idx] == 0x9c {
        Ok(s)
    } else {
        match step_spec(s, data, idx) {
            Err(e) => Err(e),
            Ok(pair) => run_spec(
                pair.0,
                data,
                if idx < pair.1 <= data.len() {
                    pair.1
                } else {
                    idx + 1
                },
            ),
        }
    }
}

/// Width of the finished image.
pub open spec fn final_width(s: DecoderState) -> int {
    larger(s.max_x + 1, larger(s.target_width, 1))
}

/// Height of the finished image.
pub open spec fn final_height(s: DecoderState) -> int {
    larger(s.max_y + 1, larger(s.target_height, 1))
}

/// The finished image: the canvas cut or extended to reach from the
/// origin to the farthest pixel drawn, and to the declared size where
/// that is larger.
pub open spec fn finalize_spec(s: DecoderState) -> Result<Raster, ErrorView> {
    match guard_spec(final_width(s), final_height(s)) {
        Some(e) => Err(e),
        None => Ok(reshape(s.canvas, final_width(s), final_height(s), background_of(s))),
    }
}

/// The raster that a SIXEL payload draws under the given parameters.
pub open spec fn decode_payload_spec(settings: DcsSettings, payload: Seq<u8>) -> Result<
    Raster,
    ErrorView,
> {
    match run_spec(initial_state(settings), strip_terminator(payload), 0) {
        Err(e) => Err(e),
        Ok(s) => finalize_spec(s),
    }
}

/// A decoded image as a mathematical value.
pub struct ImageView {
    pub pixels: Seq<u8>,
    pub width: int,
    pub height: int,
    pub pan: int,
    pub pad: int,
    pub has_transparency: bool,
}

/// The image that `data` holds.
pub open spec fn decode_spec(data: Seq<u8>) -> Result<ImageView, ErrorView> {
    match parse_spec(data) {
        Err(e) => Err(e),
        Ok(env) => {
            let settings = DcsSettings {
                aspect_ratio: env.aspect_ratio,
                zero_color: env.zero_color,
                grid_size: env.grid_size,
            };
            match decode_payload_spec(settings, env.payload) {
                Err(e) => Err(e),
                Ok(r) => Ok(
                    ImageView {
                        pixels: r.data,
                        width: r.width,
                        height: r.height,
                        pan: pixel_aspect_spec(env.aspect_ratio, env.grid_size).0,
                        pad: pixel_aspect_spec(env.aspect_ratio, env.grid_size).1,
                        has_transparency: env.zero_color == Some(1u16),
                    },
                ),
            }
        },
    }
}

/// The shape of a pixel: `pan` wide to `pad` high.
#[derive(Debug, Clone, Copy, PartialEq, Eq, Structural)]
pub struct PixelAspectRatio {
    /// Horizontal part.
    pub pan: u16,
    /// Vertical part.
    pub pad: u16,
}

impl PixelAspectRatio {
    /// Whether pixels are as wide as they are high.
    pub fn is_square(&self) -> (out: bool)
        ensures
            out == (self.pan == self.pad),
    {
        self.pan == self.pad
    }
}

impl Default for PixelAspectRatio {
    fn default() -> (out: PixelAspectRatio)
        ensures
            out.pan == 1,
            out.pad == 1,
    {
        PixelAspectRatio { pan: 1, pad: 1 }
    }
}

/// A decoded image.
#[derive(Debug, Clone)]
pub struct SixelImage {
    /// Row-major RGBA, four bytes per pixel.
    pub pixels: Vec<u8>,
    /// Width in pixels.
    pub width: usize,
    /// Height in pixels.
    pub height: usize,
    /// The pixel shape that the Device Control String declares.
    pub aspect_ratio: PixelAspectRatio,
    /// Whether what was never drawn is transparent.
    pub has_transparency: bool,
}

impl View for SixelImage {
    type V = ImageView;

    open spec fn view(&self) -> ImageView {
        ImageView {
            pixels: self.pixels@,
            width: self.width as int,
            height: self.height as int,
            pan: self.aspect_ratio.pan as int,
            pad: self.aspect_ratio.pad as int,
            has_transparency: self.has_transparency,
        }
    }
}

/// The size of an image once its pixels are made square: the longer
/// side of the pixel shape stretches its axis.
pub open spec fn corrected_dimensions_spec(width: int, height: int, pan: int, pad: int) -> (
    int,
    int,
) {
    if pan == pad {
        (width, height)
    } else if pan > pad {
        ((width * pan) / pad, height)
    } else {
        (width, (height * pad) / pan)
    }
}

impl SixelImage {
    /// The size of the image once its pixels are made square.
    pub fn corrected_dimensions(&self) -> (out: (usize, usize))
        requires
            self.aspect_ratio.pan >= 1,
            self.aspect_ratio.pad >= 1,
            self.width * self.aspect_ratio.pan <= usize::MAX,
            self.height * self.aspect_ratio.pad <= usize::MAX,
        ensures
            (out.0 as int, out.1 as int) == corrected_dimensions_spec(
                self.width as int,
                self.height as int,
                self.aspect_ratio.pan as int,
                self.aspect_ratio.pad as int,
            ),
    {
        let pan: usize = self.aspect_ratio.pan as usize;
        let pad: usize = self.aspect_ratio.pad as usize;
        if self.aspect_ratio.is_square() {
            (self.width, self.height)
        } else if pan > pad {
            let scaled: usize = self.width * pan;
            assert(scaled / pad <= scaled) by (nonlinear_arith)
                requires
                    pad >= 1,
                    scaled >= 0,
            ;
            (scaled / pad, self.height)
        } else {
            let scaled: usize = self.height * pad;
            assert(scaled / pan <= scaled) by (nonlinear_arith)
                requires
                    pan >= 1,
                    scaled >= 0,
            ;
            (self.width, scaled / pan)
        }
    }
}

/// The interpreter: canvas, colour registers and cursor.
pub struct SixelDecoder {
    pub canvas: Canvas,
    pub palette: Palette,
    pub color_index: usize,
    pub current_color: [u8; 4],
    pub repeat: usize,
    pub pos_x: usize,
    pub pos_y: usize,
    pub max_x: usize,
    pub max_y: usize,
    pub pan: usize,
    pub pad: usize,
    pub target_width: usize,
    pub target_height: usize,
    pub background_index: usize,
    pub transparent_mode: bool,
}

impl View for SixelDecoder {
    type V = DecoderState;

    open spec fn view(&self) -> DecoderState {
        DecoderState {
            canvas: self.canvas@,
            palette: self.palette@,
            color_index: self.color_index as int,
            current_color: self.current_color@,
            repeat: self.repeat as int,
            pos_x: self.pos_x as int,
            pos_y: self.pos_y as int,
            max_x: self.max_x as int,
            max_y: self.max_y as int,
            pan: self.pan as int,
            pad: self.pad as int,
            target_width: self.target_width as int,
            target_height: self.target_height as int,
            background_index: self.background_index as int,
            transparent_mode: self.transparent_mode,
        }
    }
}

/// The numbers of a parameter list.
pub open spec fn to_ints(params: Seq<i32>) -> Seq<int> {
    Seq::new(params.len(), |k: int| params[k] as int)
}

/// Reads the parameter list at `start` and keeps the first `limit`
/// parameters. Returns the number of bytes that the list takes, and the
/// parameters kept.
pub fn read_params(data: &[u8], start: usize, limit: usize) -> (out: (usize, Vec<i32>))
    ensures
        out.0 == params_end(data@, start as int) - start,
        to_ints(out.1@) == leading_params(data@, start as int, limit as int),
        out.1@.len() <= limit,
{
    let mut storage: Vec<i32> = vec![0i32; limit];
    let (consumed, count) = collect_params(data, start, storage.as_mut_slice());
    storage.truncate(count);
    assert(to_ints(storage@) =~= leading_params(data@, start as int, limit as int));
    (consumed, storage)
}

impl SixelDecoder {
    /// An interpreter at the start of a payload.
    pub fn new(settings: DcsSettings) -> (out: Result<SixelDecoder, SixelError>)
        ensures
            out matches Ok(d) && d@ == initial_state(settings) && decoder_wf(d@),
    {
        let palette = Palette::new();
        let current_color = palette.rgb_bytes(0);
        let transparent_mode = match settings.zero_color {
            Some(v) => v == 1,
            None => false,
        };
        let background: [u8; 4] = if transparent_mode {
            [0, 0, 0, 0]
        } else {
            palette.rgb_bytes(0)
        };
        assert(background@ =~= if transparent_mode {
            transparent_pixel()
        } else {
            opaque_pixel(default_registers()[0] as int)
        });
        let mut decoder = SixelDecoder {
            canvas: Canvas::new(background),
            palette,
            color_index: 0,
            current_color,
            repeat: 1,
            pos_x: 0,
            pos_y: 0,
            max_x: 0,
            max_y: 0,
            pan: 2,
            pad: 1,
            target_width: 0,
            target_height: 0,
            background_index: 0,
            transparent_mode,
        };
        decoder.apply_dcs_settings(settings);
        Ok(decoder)
    }

    /// Takes the pixel shape from the parameters of the Device Control
    /// String.
    pub fn apply_dcs_settings(&mut self, settings: DcsSettings)
        ensures
            final(self)@ == (DecoderState {
                pan: pixel_aspect_spec(settings.aspect_ratio, settings.grid_size).0,
                pad: pixel_aspect_spec(settings.aspect_ratio, settings.grid_size).1,
                ..old(self)@
            }),
            1 <= final(self).pan <= 13107,
            1 <= final(self).pad <= 32767,
    {
        let aspect = pixel_aspect(settings.aspect_ratio, settings.grid_size);
        self.pan = aspect.0;
        self.pad = aspect.1;
    }

    /// The pixel that fills what was never drawn.
    pub fn background_rgb(&self) -> (out: [u8; 4])
        requires
            self@.palette.len() == SIXEL_PALETTE_MAX,
        ensures
            out@ == background_of(self@),
    {
        if self.transparent_mode {
            let out: [u8; 4] = [0, 0, 0, 0];
            assert(out@ =~= transparent_pixel());
            out
        } else {
            let index = if self.background_index < SIXEL_PALETTE_MAX - 1 {
                self.background_index
            } else {
                SIXEL_PALETTE_MAX - 1
            };
            self.palette.rgb_bytes(index)
        }
    }

    /// Refuses an image that is over a limit: more than a million
    /// pixels along one axis, or more than [`MAX_PIXELS`] in all.
    pub fn guard_dimensions(&self, width: usize, height: usize) -> (out: Result<(), SixelError>)
        ensures
            match guard_spec(width as int, height as int) {
                Some(e) => out matches Err(x) && x@ == e,
                None => out is Ok,
            },
    {
        if width > SIXEL_WIDTH_LIMIT || height > SIXEL_HEIGHT_LIMIT {
            return Err(malformed_error());
        }
        proof {
            lemma_mul_bounded(
                width as int,
                height as int,
                SIXEL_WIDTH_LIMIT as int,
                SIXEL_HEIGHT_LIMIT as int,
            );
        }
        if (width as u64) * (height as u64) > MAX_PIXELS as u64 {
            return Err(too_large_error());
        }
        Ok(())
    }

    /// Draws one six-pixel column.
    pub fn handle_sixel(&mut self, ch: u8) -> (out: Result<(), SixelError>)
        requires
            decoder_wf(old(self)@),
            0x3f <= ch <= 0x7e,
        ensures
            match sixel_spec(old(self)@, ch) {
                Ok(s) => out is Ok && final(self)@ == s && decoder_wf(s),
                Err(e) => out matches Err(x) && x@ == e,
            },
    {
        let ghost before = self@;
        let bits: u8 = ch - 0x3f;
        let span: usize = if self.repeat < 1 {
            1
        } else {
            self.repeat
        };
        if self.pos_y > SIXEL_HEIGHT_LIMIT - SIXEL_CELL_HEIGHT {
            return Err(malformed_error());
        }
        let width_needed: usize = self.pos_x + span;
        let height_needed: usize = self.pos_y + SIXEL_CELL_HEIGHT;
        if width_needed > SIXEL_WIDTH_LIMIT {
            return Err(malformed_error());
        }
        let background = self.background_rgb();
        match self.canvas.ensure_visible(width_needed, height_needed, background) {
            Err(e) => {
                return Err(e);
            },
            Ok(()) => {},
        }
        let ghost grown = self.canvas@;
        proof {
            if !(width_needed <= before.canvas.width && height_needed <= before.canvas.height)
                && larger(width_needed as int, before.canvas.width) * larger(
                height_needed as int,
                before.canvas.height,
            ) <= MAX_PIXELS {
                lemma_reshape_wf(
                    before.canvas,
                    larger(width_needed as int, before.canvas.width),
                    larger(height_needed as int, before.canvas.height),
                    background@,
                );
            }
            lemma_paint_column(
                grown,
                self.pos_y as int,
                self.pos_x as int,
                span as int,
                bits as int,
                self.current_color@,
            );
        }
        let color = self.current_color;
        let x = self.pos_x;
        let y = self.pos_y;
        let mut touched = false;
        if bits % 2 == 1 {
            self.canvas.paint_span(y, x, span, color);
            touched = true;
        }
        if (bits / 2) % 2 == 1 {
            self.canvas.paint_span(y + 1, x, span, color);
            touched = true;
        }
        if (bits / 4) % 2 == 1 {
            self.canvas.paint_span(y + 2, x, span, color);
            touched = true;
        }
        if (bits / 8) % 2 == 1 {
            self.canvas.paint_span(y + 3, x, span, color);
            touched = true;
        }
        if (bits / 16) % 2 == 1 {
            self.canvas.paint_span(y + 4, x, span, color);
            touched = true;
        }
        if (bits / 32) % 2 == 1 {
            self.canvas.paint_span(y + 5, x, span, color);
            touched = true;
        }
        assert(self.canvas@ == paint_rows(
            grown,
            y as int,
            x as int,
            span as int,
            bits as int,
            color@,
            6,
        )) by {
            reveal_with_fuel(paint_rows, 7);
        }
        let last_x: usize = width_needed - 1;
        if last_x > self.max_x {
            self.max_x = last_x;
        }
        if touched {
            let last_y: usize = height_needed - 1;
            if last_y > self.max_y {
                self.max_y = last_y;
            }
        }
        self.repeat = 1;
        self.pos_x = width_needed;
        Ok(())
    }

    /// Obeys the colour command whose parameters begin at `start`, and
    /// returns the number of bytes that they take.
    pub fn handle_color_command(&mut self, data: &[u8], start: usize) -> (out: Result<
        usize,
        SixelError,
    >)
        requires
            decoder_wf(old(self)@),
        ensures
            out matches Ok(consumed) && consumed == params_end(data@, start as int) - start,
            final(self)@ == color_spec(old(self)@, leading_params(data@, start as int, 5)),
            decoder_wf(final(self)@),
    {
        let (consumed, storage) = read_params(data, start, 5);
        let count: usize = storage.len();
        let ghost params = to_ints(storage@);
        if count == 0 {
            self.color_index = 0;
            return Ok(consumed);
        }
        let first: i32 = storage[0];
        let color_idx: usize = if first < 0 {
            0
        } else if first > 255 {
            255
        } else {
            first as usize
        };
        self.color_index = color_idx;
        if count >= 5 {
            let colorspace: i32 = storage[1];
            if colorspace == 1 {
                self.palette.set_hls(color_idx, storage[2], storage[3], storage[4]);
            } else if colorspace == 2 {
                self.palette.set_rgb_percent(color_idx, storage[2], storage[3], storage[4]);
            }
        }
        self.current_color = self.palette.rgb_bytes(color_idx);
        Ok(consumed)
    }

    /// Grows the canvas to the declared size, where one is declared.
    fn grow_to_target(&mut self, target_width: usize, target_height: usize) -> (out: Result<
        (),
        SixelError,
    >)
        requires
            decoder_wf(old(self)@),
        ensures
            match target_spec(old(self)@, target_width as int, target_height as int) {
                Ok(s) => out is Ok && final(self)@ == s && decoder_wf(s),
                Err(e) => out matches Err(x) && x@ == e,
            },
    {
        if target_width > 0 || target_height > 0 {
            let background = self.background_rgb();
            let width: usize = if target_width < 1 {
                1
            } else {
                target_width
            };
            let height: usize = if target_height < 1 {
                1
            } else {
                target_height
            };
            match self.guard_dimensions(width, height) {
                Err(e) => {
                    return Err(e);
                },
                Ok(()) => {},
            }
            proof {
                let canvas = self.canvas@;
                if !(width <= canvas.width && height <= canvas.height) && larger(
                    width as int,
                    canvas.width,
                ) * larger(height as int, canvas.height) <= MAX_PIXELS {
                    lemma_reshape_wf(
                        canvas,
                        larger(width as int, canvas.width),
                        larger(height as int, canvas.height),
                        background@,
                    );
                }
            }
            match self.canvas.ensure_visible(width, height, background) {
                Err(e) => {
                    return Err(e);
                },
                Ok(()) => {},
            }
        }
        self.target_width = target_width;
        self.target_height = target_height;
        Ok(())
    }

    /// Obeys the raster-attributes command whose parameters begin at
    /// `start`, and returns the number of bytes that they take.
    pub fn handle_raster_command(&mut self, data: &[u8], start: usize) -> (out: Result<
        usize,
        SixelError,
    >)
        requires
            decoder_wf(old(self)@),
        ensures
            match raster_spec(old(self)@, leading_params(data@, start as int, 4)) {
                Ok(s) => out matches Ok(consumed) && consumed == params_end(data@, start as int)
                    - start && final(self)@ == s && decoder_wf(s),
                Err(e) => out matches Err(x) && x@ == e,
            },
    {
        let (consumed, storage) = read_params(data, start, 4);
        let count: usize = storage.len();
        let ghost params = to_ints(storage@);
        if count > 0 {
            self.pad = if storage[0] < 1 {
                1
            } else {
                storage[0] as usize
            };
        }
        if count > 1 {
            self.pan = if storage[1] < 1 {
                1
            } else {
                storage[1] as usize
            };
        }
        let mut target_width: usize = self.target_width;
        let mut target_height: usize = self.target_height;
        if count > 2 && storage[2] > 0 {
            target_width = storage[2] as usize;
        }
        if count > 3 && storage[3] > 0 {
            target_height = storage[3] as usize;
        }
        assert(self@ == raster_shape(old(self)@, params));
        assert(target_width == raster_target_width(old(self)@, params));
        assert(target_height == raster_target_height(old(self)@, params));
        match self.grow_to_target(target_width, target_height) {
            Err(e) => Err(e),
            Ok(()) => Ok(consumed),
        }
    }

    /// Obeys every command of `data`, up to its end or the first `ESC`
    /// or `0x9C`.
    pub fn process(&mut self, data: &[u8]) -> (out: Result<(), SixelError>)
        requires
            decoder_wf(old(self)@),
        ensures
            match run_spec(old(self)@, data@, 0) {
                Ok(s) => out is Ok && final(self)@ == s && decoder_wf(s),
                Err(e) => out matches Err(x) && x@ == e,
            },
            out is Ok ==> final(self).transparent_mode == old(self).transparent_mode,
    {
        let mut idx: usize = 0;
        while idx < data.len() && data[idx] != 0x1b && data[idx] != 0x9c
            invariant
                idx <= data@.len(),
                decoder_wf(self@),
                self.transparent_mode == old(self).transparent_mode,
                run_spec(old(self)@, data@, 0) == run_spec(self@, data@, idx as int),
            decreases data@.len() - idx,
        {
            let b: u8 = data[idx];
            proof {
                lemma_digits_end_bounds(data@, idx + 1);
                lemma_params_end_bounds(data@, idx + 1);
            }
            if b == 0x24 {
                self.pos_x = 0;
                idx += 1;
            } else if b == 0x2d {
                self.pos_x = 0;
                match self.pos_y.checked_add(SIXEL_CELL_HEIGHT) {
                    Some(y) => {
                        self.pos_y = y;
                    },
                    None => {
                        return Err(SixelError::IntegerOverflow);
                    },
                }
                idx += 1;
            } else if b == 0x21 {
                let (value, consumed) = read_number(data, idx + 1);
                let repeat: usize = if value == 0 {
                    1
                } else {
                    value
                };
                if repeat > MAX_REPEAT {
                    return Err(malformed_error());
                }
                self.repeat = repeat;
                idx += 1 + consumed;
            } else if b == 0x23 {
                match self.handle_color_command(data, idx + 1) {
                    Err(e) => {
                        return Err(e);
                    },
                    Ok(consumed) => {
                        idx += 1 + consumed;
                    },
                }
            } else if b == 0x22 {
                match self.handle_raster_command(data, idx + 1) {
                    Err(e) => {
                        return Err(e);
                    },
                    Ok(consumed) => {
                        idx += 1 + consumed;
                    },
                }
            } else if b >= 0x3f && b <= 0x7e {
                match self.handle_sixel(b) {
                    Err(e) => {
                        return Err(e);
                    },
                    Ok(()) => {},
                }
                idx += 1;
            } else {
                idx += 1;
            }
        }
        Ok(())
    }

    /// Ends the image: cuts or extends the canvas to its final size and
    /// hands out its pixels, width and height.
    pub fn finalize(self) -> (out: Result<(Vec<u8>, usize, usize), SixelError>)
        requires
            decoder_wf(self@),
        ensures
            match finalize_spec(self@) {
                Ok(r) => out matches Ok(image) && image.0@ == r.data && image.1 == r.width
                    && image.2 == r.height && raster_wf(r) && (!self.transparent_mode
                    ==> raster_opaque(r)),
                Err(e) => out matches Err(x) && x@ == e,
            },
    {
        let mut decoder = self;
        let width: usize = decoder.max_x + 1;
        let height: usize = decoder.max_y + 1;
        let target_width: usize = if decoder.target_width < 1 {
            1
        } else {
            decoder.target_width
        };
        let target_height: usize = if decoder.target_height < 1 {
            1
        } else {
            decoder.target_height
        };
        let desired_width: usize = if width > target_width {
            width
        } else {
            target_width
        };
        let desired_height: usize = if height > target_height {
            height
        } else {
            target_height
        };
        match decoder.guard_dimensions(desired_width, desired_height) {
            Err(e) => {
                return Err(e);
            },
            Ok(()) => {},
        }
        let background = decoder.background_rgb();
        proof {
            lemma_reshape_wf(
                decoder.canvas@,
                desired_width as int,
                desired_height as int,
                background@,
            );
        }
        decoder.canvas.resize(desired_width, desired_height, background);
        Ok((decoder.canvas.data, decoder.canvas.width, decoder.canvas.height))
    }
}

/// Decodes a SIXEL payload whose Device Control String parameters were
/// read already. A string terminator at its end is left out. Returns
/// RGBA pixels, width and height.
pub fn sixel_decode_from_dcs(
    aspect_ratio: Option<u16>,
    zero_color: Option<u16>,
    grid_size: Option<u16>,
    sixel_data: &[u8],
) -> (out: Result<(Vec<u8>, usize, usize), SixelError>)
    ensures
        match decode_payload_spec(
            DcsSettings { aspect_ratio, zero_color, grid_size },
            sixel_data@,
        ) {
            Ok(r) => out matches Ok(image) && image.0@ == r.data && image.1 == r.width && image.2
                == r.height && raster_wf(r) && (zero_color != Some(1u16) ==> raster_opaque(r)),
            Err(e) => out matches Err(x) && x@ == e,
        },
{
    let payload = strip_string_terminator(sixel_data);
    let settings = DcsSettings::new(aspect_ratio, zero_color, grid_size);
    let mut decoder = match SixelDecoder::new(settings) {
        Ok(d) => d,
        Err(e) => {
            return Err(e);
        },
    };
    match decoder.process(payload) {
        Err(e) => {
            return Err(e);
        },
        Ok(()) => {},
    }
    decoder.finalize()
}

/// Decodes a complete SIXEL sequence: introducer, parameters, payload
/// and string terminator. Bytes before the introducer are passed over;
/// data without an introducer is taken as a bare payload.
///
/// The image has four bytes per pixel, at least one pixel, and at most
/// [`MAX_PIXELS`]. Unless the second parameter asks for a transparent
/// background, every pixel is fully opaque.
pub fn sixel_decode(data: &[u8]) -> (out: Result<SixelImage, SixelError>)
    ensures
        match decode_spec(data@) {
            Ok(image) => out matches Ok(got) && got@ == image,
            Err(e) => out matches Err(x) && x@ == e,
        },
        out matches Ok(got) ==> {
            &&& got.width >= 1
            &&& got.height >= 1
            &&& got.pixels@.len() == got.width * got.height * 4
            &&& got.width * got.height <= MAX_PIXELS
            &&& got.aspect_ratio.pan >= 1
            &&& got.aspect_ratio.pad >= 1
            &&& !got.has_transparency ==> forall|i: int|
                0 <= i < got.pixels@.len() && i % 4 == 3 ==> got.pixels@[i] == 0xFFu8
        },
{
    let parsed = match AnsiPayload::parse(data) {
        Ok(p) => p,
        Err(e) => {
            return Err(e);
        },
    };
    let aspect = pixel_aspect(parsed.aspect_ratio, parsed.grid_size);
    let has_transparency = match parsed.zero_color {
        Some(v) => v == 1,
        None => false,
    };
    let (pixels, width, height) = match sixel_decode_from_dcs(
        parsed.aspect_ratio,
        parsed.zero_color,
        parsed.grid_size,
        parsed.payload,
    ) {
        Ok(image) => image,
        Err(e) => {
            return Err(e);
        },
    };
    Ok(
        SixelImage {
            pixels,
            width,
            height,
            aspect_ratio: PixelAspectRatio { pan: aspect.0 as u16, pad: aspect.1 as u16 },
            has_transparency,
        },
    )
}

} // verus!
