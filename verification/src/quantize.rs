//! Colour quantization, done by the `quantette` crate.

use quantette::deps::palette::cast;
use quantette::deps::palette::Srgb;
use quantette::dither::FloydSteinberg;
use quantette::{ImageRef, PaletteSize, Pipeline};
use vstd::prelude::*;

verus! {

/// How the palette of an image is chosen.
#[derive(Clone, Copy, Debug, PartialEq, Eq, Structural)]
pub enum QuantizeMethod {
    /// Wu's quantizer: greedy orthogonal bipartitioning.
    Wu,
    /// K-means clustering, started from the palette of Wu's quantizer.
    Kmeans,
}

/// What the quantizer makes of an image: the palette, three bytes for
/// each colour, and one palette index for each pixel; `None` where it
/// takes no image of that size from those bytes. `rgb` holds three bytes
/// for each pixel, row by row; `colors` is the largest palette wanted.
pub uninterp spec fn quantized(
    rgb: Seq<u8>,
    width: u32,
    height: u32,
    colors: u16,
    method: QuantizeMethod,
    dither: bool,
) -> Option<(Seq<u8>, Seq<u8>)>;

/// A quantizer result as a mathematical value.
pub open spec fn quantized_view(out: Option<(Vec<u8>, Vec<u8>)>) -> Option<(Seq<u8>, Seq<u8>)> {
    match out {
        Some((palette, indices)) => Some((palette@, indices@)),
        None => None,
    }
}

/// Runs `quantette`'s `Pipeline` on an sRGB image and returns the
/// palette and indices of `output_srgb8_indexed_image`, or `None` where
/// `ImageRef::new` refuses the size. Trusted: the result is a function
/// of the arguments, named [`quantized`]; nothing else is claimed of it.
/// The length of `rgb` must be a multiple of three, as the cast to
/// pixels asks.
#[verifier::external_body]
pub(crate) fn run_quantizer(
    rgb: &[u8],
    width: u32,
    height: u32,
    colors: u16,
    method: QuantizeMethod,
    dither: bool,
) -> (out: Option<(Vec<u8>, Vec<u8>)>)
    requires
        rgb@.len() % 3 == 0,
    ensures
        quantized_view(out) == quantized(rgb@, width, height, colors, method, dither),
{
    let pixels: &[Srgb<u8>] = cast::from_component_slice(rgb);
    let image = ImageRef::new(width, height, pixels).ok()?;
    let method = match method {
        QuantizeMethod::Wu => quantette::QuantizeMethod::Wu,
        QuantizeMethod::Kmeans => quantette::QuantizeMethod::kmeans(),
    };
    let indexed = Pipeline::new()
        .palette_size(PaletteSize::from_u16_clamped(colors))
        .quantize_method(method)
        .ditherer(dither.then_some(FloydSteinberg::new()))
        .input_image(image)
        .output_srgb8_indexed_image();
    let (palette, indices) = indexed.into_parts();
    Some((cast::into_component_vec(palette), indices))
}

} // verus!
