//! SIXEL graphics codec: a decoder from Device Control Strings to RGBA
//! rasters and an encoder from RGBA rasters to Device Control Strings.
//!
//! The decoder is a byte-by-byte interpreter ([`decoder`]) that draws on
//! a canvas grown on demand ([`canvas`]) with 256 colour registers
//! ([`palette`], [`color`]); [`dcs`] takes the envelope apart and
//! [`params`] reads numbers. The encoder ([`encoder`]) has the colours
//! reduced to a palette ([`quantize`]) and writes the image band by band
//! ([`emitter`]). [`shape`] states what holds of every decoded image;
//! [`roundtrip`] and [`fidelity`] state what the decoder makes of the
//! encoder's output. [`quant`], [`apply`] and [`histogram`] map images
//! to a fixed palette with error diffusion.
//!
//! Every function has a contract over a mathematical model of its data,
//! and is proved to meet it. Two things are taken on trust: that the
//! quantizer is a function of its arguments ([`quantize`]), and that
//! ASCII bytes make a string of as many characters ([`text`]).

pub mod apply;
pub mod canvas;
pub mod color;
pub mod dcs;
pub mod decoder;
pub mod emitter;
pub mod encoder;
pub mod error;
pub mod fidelity;
pub mod histogram;
pub mod limits;
pub mod palette;
pub mod params;
pub mod quant;
pub mod quantize;
pub mod roundtrip;
pub mod shape;
pub mod text;

pub use decoder::{sixel_decode, sixel_decode_from_dcs, PixelAspectRatio, SixelImage};
pub use encoder::{sixel_encode, sixel_encode_default, EncodeOptions};
pub use error::SixelError;
pub use quantize::QuantizeMethod;
