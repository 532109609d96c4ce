//! The encoder: from RGBA pixels to the text of a Device Control
//! String.

use crate::emitter::{
    emit_sixel, emit_spec, header_bytes, indexed_of, trailer_bytes, Indexed, Rgb,
};
use crate::error::{bad_quantization, bad_quantization_error, ErrorView, SixelError};
use crate::limits::{
    lemma_mul_bounded, within_limits, MAX_PIXELS, SIXEL_HEIGHT_LIMIT, SIXEL_WIDTH_LIMIT,
};
use crate::params::is_param_byte;
use crate::quantize::{quantized, run_quantizer, QuantizeMethod};
use crate::text::{ascii_chars, string_from_ascii};
use vstd::prelude::*;

verus! {

/// What the encoder may be asked for.
#[derive(Clone, Debug)]
pub struct EncodeOptions {
    /// Largest number of palette colours; values outside `2..=256` are
    /// taken as the nearer end.
    pub max_colors: u16,
    /// How the palette is chosen.
    pub quantize_method: QuantizeMethod,
    /// Whether quantization errors are diffused to neighbouring pixels.
    pub dither: bool,
}

impl Default for EncodeOptions {
    fn default() -> (out: EncodeOptions)
        ensures
            out.max_colors == 256,
            out.quantize_method == QuantizeMethod::Wu,
            out.dither,
    {
        EncodeOptions { max_colors: 256, quantize_method: QuantizeMethod::Wu, dither: true }
    }
}

/// Whether some pixel has an alpha below 128.
pub open spec fn has_transparency_spec(rgba: Seq<u8>) -> bool {
    exists|p: int| 0 <= p < rgba.len() / 4 && #[trigger] rgba[4 * p + 3] < 128
}

/// One flag per pixel: whether its alpha is at least 128.
pub open spec fn opacity_of(rgba: Seq<u8>) -> Seq<bool> {
    Seq::new(rgba.len() / 4, |p: int| rgba[4 * p + 3] >= 128)
}

/// The colour channels of the pixels, three bytes for each.
pub open spec fn rgb_of(rgba: Seq<u8>) -> Seq<u8> {
    Seq::new((rgba.len() / 4) * 3, |i: int| rgba[(i / 3) * 4 + i % 3])
}

/// The palette size asked of the quantizer.
pub open spec fn effective_colors(max_colors: u16) -> u16 {
    if max_colors < 2 {
        2
    } else if max_colors > 256 {
        256
    } else {
        max_colors
    }
}

/// The palette that three bytes for each colour describe.
pub open spec fn palette_of(flat: Seq<u8>) -> Seq<Rgb> {
    Seq::new(
        flat.len() / 3,
        |i: int| Rgb { r: flat[3 * i], g: flat[3 * i + 1], b: flat[3 * i + 2] },
    )
}

/// Whether a palette and indices describe an image of the given size:
/// whole colours, at most 256 of them, and for every pixel the index of
/// one of them.
pub open spec fn usable(flat: Seq<u8>, indices: Seq<u8>, width: int, height: int) -> bool {
    &&& flat.len() % 3 == 0
    &&& flat.len() / 3 <= 256
    &&& indices.len() == width * height
    &&& forall|p: int| 0 <= p < indices.len() ==> #[trigger] indices[p] < flat.len() / 3
}

/// Why the encoder refuses a pixel buffer of `len` bytes for an image
/// of the given size, if it does.
pub open spec fn check_input_spec(len: int, width: int, height: int) -> Option<ErrorView> {
    if width == 0 || height == 0 || !within_limits(width, height) {
        Some(ErrorView::InvalidDimensions { width, height })
    } else if len != width * height * 4 {
        Some(ErrorView::BufferSizeMismatch { expected: width * height * 4, actual: len })
    } else {
        None
    }
}

/// The bytes that the encoder writes for an image, given what the
/// quantizer made of it.
pub open spec fn encode_quantized_spec(
    rgba: Seq<u8>,
    width: int,
    height: int,
    flat: Seq<u8>,
    indices: Seq<u8>,
) -> Result<Seq<u8>, ErrorView> {
    match check_input_spec(rgba.len() as int, width, height) {
        Some(e) => Err(e),
        None => if usable(flat, indices, width, height) {
            Ok(
                emit_spec(
                    indexed_of(palette_of(flat), indices, opacity_of(rgba), width, height),
                    has_transparency_spec(rgba),
                ),
            )
        } else {
            Err(bad_quantization())
        },
    }
}

/// The bytes that the encoder writes for an image: those of
/// [`encode_quantized_spec`] for what the quantizer makes of it, which
/// must hold no more colours than asked for.
pub open spec fn encode_spec(rgba: Seq<u8>, width: int, height: int, opts: EncodeOptions) -> Result<
    Seq<u8>,
    ErrorView,
> {
    match check_input_spec(rgba.len() as int, width, height) {
        Some(e) => Err(e),
        None => match quantized(
            rgb_of(rgba),
            width as u32,
            height as u32,
            effective_colors(opts.max_colors),
            opts.quantize_method,
            opts.dither,
        ) {
            None => Err(bad_quantization()),
            Some((flat, indices)) => if flat.len() > 3 * effective_colors(opts.max_colors) {
                Err(bad_quantization())
            } else {
                encode_quantized_spec(rgba, width, height, flat, indices)
            },
        },
    }
}

/// Whether `text` is framed as a Device Control String: `ESC P`,
/// parameters, `q`, and at the end `ESC \`.
pub open spec fn is_framed(text: Seq<u8>) -> bool {
    &&& text.len() >= 5
    &&& text[0] == 0x1b
    &&& text[1] == 0x50
    &&& exists|i: int|
        2 <= i < text.len() - 2 && #[trigger] text[i] == 0x71 && forall|j: int|
            2 <= j < i ==> is_param_byte(#[trigger] text[j])
    &&& text[text.len() - 2] == 0x1b
    &&& text[text.len() - 1] == 0x5c
}

/// Whatever the image, the emitter's output is framed as a Device
/// Control String.
pub proof fn lemma_emit_framed(q: Indexed, transparent: bool)
    ensures
        is_framed(emit_spec(q, transparent)),
{
    let text = emit_spec(q, transparent);
    let header = header_bytes(transparent);
    let body = text.subrange(header.len() as int, text.len() - 2);
    assert(text =~= header + body + trailer_bytes());
    let i = header.len() - 1;
    assert(text[i] == 0x71);
    assert forall|j: int| 2 <= j < i implies is_param_byte(#[trigger] text[j]) by {
        assert(text[j] == header[j]);
    }
}

/// Why the encoder refuses the input, if it does.
fn check_input(len: usize, width: usize, height: usize) -> (out: Option<SixelError>)
    ensures
        match check_input_spec(len as int, width as int, height as int) {
            Some(e) => out matches Some(x) && x@ == e,
            None => out is None && width * height * 4 == len && 1 <= width <= SIXEL_WIDTH_LIMIT
                && 1 <= height <= SIXEL_HEIGHT_LIMIT && width * height <= MAX_PIXELS,
        },
{
    if width == 0 || height == 0 || width > SIXEL_WIDTH_LIMIT || height > SIXEL_HEIGHT_LIMIT {
        return Some(SixelError::InvalidDimensions { width, height });
    }
    proof {
        lemma_mul_bounded(
            width as int,
            height as int,
            SIXEL_WIDTH_LIMIT as int,
            SIXEL_HEIGHT_LIMIT as int,
        );
    }
    let pixels: u64 = (width as u64) * (height as u64);
    if pixels > MAX_PIXELS as u64 {
        return Some(SixelError::InvalidDimensions { width, height });
    }
    let expected: usize = (pixels * 4) as usize;
    if len != expected {
        return Some(SixelError::BufferSizeMismatch { expected, actual: len });
    }
    None
}

/// The opacity flags of the pixels and whether any is transparent.
fn opacity_mask_of(rgba: &[u8]) -> (out: (Vec<bool>, bool))
    requires
        rgba@.len() % 4 == 0,
    ensures
        out.0@ == opacity_of(rgba@),
        out.1 == has_transparency_spec(rgba@),
{
    let pixels: usize = rgba.len() / 4;
    let mut mask: Vec<bool> = Vec::with_capacity(pixels);
    let mut any: bool = false;
    let mut p: usize = 0;
    while p < pixels
        invariant
            p <= pixels,
            pixels == rgba@.len() / 4,
            rgba@.len() % 4 == 0,
            rgba@.len() <= usize::MAX,
            mask@.len() == p,
            forall|k: int| 0 <= k < p ==> mask@[k] == (rgba@[4 * k + 3] >= 128),
            any <==> exists|k: int| 0 <= k < p && #[trigger] rgba@[4 * k + 3] < 128,
        decreases pixels - p,
    {
        let alpha: u8 = rgba[4 * p + 3];
        mask.push(alpha >= 128);
        if alpha < 128 {
            any = true;
        }
        p += 1;
    }
    assert(mask@ =~= opacity_of(rgba@));
    (mask, any)
}

/// The colour channels of the pixels.
fn rgb_channels_of(rgba: &[u8]) -> (out: Vec<u8>)
    requires
        rgba@.len() % 4 == 0,
    ensures
        out@ == rgb_of(rgba@),
        out@.len() % 3 == 0,
{
    let pixels: usize = rgba.len() / 4;
    let mut rgb: Vec<u8> = Vec::with_capacity(pixels * 3);
    let mut p: usize = 0;
    while p < pixels
        invariant
            p <= pixels,
            pixels == rgba@.len() / 4,
            rgba@.len() % 4 == 0,
            rgba@.len() <= usize::MAX,
            rgb@.len() == 3 * p,
            forall|i: int| 0 <= i < 3 * p ==> rgb@[i] == rgba@[(i / 3) * 4 + i % 3],
        decreases pixels - p,
    {
        rgb.push(rgba[4 * p]);
        rgb.push(rgba[4 * p + 1]);
        rgb.push(rgba[4 * p + 2]);
        p += 1;
    }
    assert(rgb@ =~= rgb_of(rgba@));
    rgb
}

/// The palette that three bytes for each colour describe.
fn palette_from(flat: &[u8]) -> (out: Vec<Rgb>)
    requires
        flat@.len() % 3 == 0,
    ensures
        out@ == palette_of(flat@),
{
    let colors: usize = flat.len() / 3;
    let mut palette: Vec<Rgb> = Vec::with_capacity(colors);
    let mut i: usize = 0;
    while i < colors
        invariant
            i <= colors,
            colors == flat@.len() / 3,
            flat@.len() % 3 == 0,
            flat@.len() <= usize::MAX,
            palette@.len() == i,
            forall|k: int|
                0 <= k < i ==> palette@[k] == (Rgb {
                    r: flat@[3 * k],
                    g: flat@[3 * k + 1],
                    b: flat@[3 * k + 2],
                }),
        decreases colors - i,
    {
        palette.push(Rgb { r: flat[3 * i], g: flat[3 * i + 1], b: flat[3 * i + 2] });
        i += 1;
    }
    assert(palette@ =~= palette_of(flat@));
    palette
}

/// Whether every index is below `colors`.
fn indices_below(indices: &[u8], colors: usize) -> (out: bool)
    ensures
        out == forall|p: int| 0 <= p < indices@.len() ==> #[trigger] indices@[p] < colors,
{
    let mut p: usize = 0;
    while p < indices.len()
        invariant
            p <= indices@.len(),
            forall|k: int| 0 <= k < p ==> #[trigger] indices@[k] < colors,
        decreases indices@.len() - p,
    {
        if indices[p] as usize >= colors {
            return false;
        }
        p += 1;
    }
    true
}

/// Writes an indexed image as the text of a Device Control String. See
/// [`emit_sixel`] for what it holds.
pub fn encode_indexed_to_sixel(
    palette: &[Rgb],
    indices: &[u8],
    opacity_mask: &[bool],
    width: usize,
    height: usize,
    has_transparency: bool,
) -> (out: Result<String, SixelError>)
    requires
        palette@.len() <= 256,
        indices@.len() == width * height,
        opacity_mask@.len() == width * height,
    ensures
        out matches Ok(text) && text@ == ascii_chars(
            emit_spec(
                indexed_of(palette@, indices@, opacity_mask@, width as int, height as int),
                has_transparency,
            ),
        ),
{
    let bytes = emit_sixel(palette, indices, opacity_mask, width, height, has_transparency);
    Ok(string_from_ascii(bytes))
}

/// Encodes an image whose palette and indices are given: `flat` holds
/// three bytes for each palette colour, `indices` one palette index for
/// each pixel. The alpha of `rgba` decides which pixels are drawn: those
/// with an alpha below 128 are left out, and where there is one the
/// introducer asks for a transparent background.
///
/// Fails with `InvalidDimensions` where a side is zero or the image is
/// over a limit, with `BufferSizeMismatch` where `rgba` does not have
/// four bytes per pixel, and with `Quantization` where palette and
/// indices do not describe an image of that size.
pub fn encode_quantized(
    rgba: &[u8],
    width: usize,
    height: usize,
    flat: &[u8],
    indices: &[u8],
) -> (out: Result<String, SixelError>)
    ensures
        match encode_quantized_spec(rgba@, width as int, height as int, flat@, indices@) {
            Ok(bytes) => out matches Ok(text) && text@ == ascii_chars(bytes) && is_framed(bytes),
            Err(e) => out matches Err(x) && x@ == e,
        },
{
    match check_input(rgba.len(), width, height) {
        Some(e) => {
            return Err(e);
        },
        None => {},
    }
    if flat.len() % 3 != 0 || flat.len() / 3 > 256 || indices.len() != width * height {
        return Err(bad_quantization_error());
    }
    if !indices_below(indices, flat.len() / 3) {
        return Err(bad_quantization_error());
    }
    let (opacity_mask, has_transparency) = opacity_mask_of(rgba);
    let palette = palette_from(flat);
    proof {
        lemma_emit_framed(
            indexed_of(palette@, indices@, opacity_mask@, width as int, height as int),
            has_transparency,
        );
    }
    encode_indexed_to_sixel(
        palette.as_slice(),
        indices,
        opacity_mask.as_slice(),
        width,
        height,
        has_transparency,
    )
}

/// Encodes RGBA pixels, four bytes for each, row by row, as the text of
/// a Device Control String. The colours are reduced to a palette of at
/// most `opts.max_colors` entries by the quantizer; pixels with an alpha
/// below 128 are left out.
///
/// Fails with `InvalidDimensions` where a side is zero or the image is
/// over a limit, with `BufferSizeMismatch` where `rgba` does not have
/// `width * height * 4` bytes, and with `Quantization` where the
/// quantizer gives no image of that size or more colours than asked
/// for. The text is framed: it begins with `ESC P`, parameters and `q`,
/// and ends with `ESC \`.
pub fn sixel_encode(rgba: &[u8], width: usize, height: usize, opts: &EncodeOptions) -> (out: Result<
    String,
    SixelError,
>)
    ensures
        match encode_spec(rgba@, width as int, height as int, *opts) {
            Ok(bytes) => out matches Ok(text) && text@ == ascii_chars(bytes) && is_framed(bytes),
            Err(e) => out matches Err(x) && x@ == e,
        },
{
    match check_input(rgba.len(), width, height) {
        Some(e) => {
            return Err(e);
        },
        None => {},
    }
    let rgb = rgb_channels_of(rgba);
    let colors: u16 = if opts.max_colors < 2 {
        2
    } else if opts.max_colors > 256 {
        256
    } else {
        opts.max_colors
    };
    match run_quantizer(
        rgb.as_slice(),
        width as u32,
        height as u32,
        colors,
        opts.quantize_method,
        opts.dither,
    ) {
        None => Err(bad_quantization_error()),
        Some((flat, indices)) => {
            if flat.len() > 3 * (colors as usize) {
                return Err(bad_quantization_error());
            }
            encode_quantized(rgba, width, height, flat.as_slice(), indices.as_slice())
        },
    }
}

/// Encodes RGBA pixels with the default options: up to 256 colours,
/// Wu's quantizer, with dithering.
pub fn sixel_encode_default(rgba: &[u8], width: usize, height: usize) -> (out: Result<
    String,
    SixelError,
>)
    ensures
        match encode_spec(
            rgba@,
            width as int,
            height as int,
            EncodeOptions { max_colors: 256, quantize_method: QuantizeMethod::Wu, dither: true },
        ) {
            Ok(bytes) => out matches Ok(text) && text@ == ascii_chars(bytes) && is_framed(bytes),
            Err(e) => out matches Err(x) && x@ == e,
        },
{
    let opts = EncodeOptions::default();
    sixel_encode(rgba, width, height, &opts)
}

} // verus!
