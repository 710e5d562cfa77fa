//! Image-processing pipeline for two-level (eink) displays.
//!
//! A rectangular 8-bit luminance buffer passes through four stages:
//! gamma remapping through a precomputed lookup table, a linear contrast
//! stretch around mid-gray, and binarization by either a static threshold
//! or Floyd-Steinberg error diffusion. Every stage consumes one buffer and
//! produces a fresh buffer of identical dimensions.
//!
//! All arithmetic is exact fixed-point integer arithmetic: the fractional
//! pipeline parameters (contrast level, diffusion amount) are taken in
//! thousandths, and the diffusion error grid holds values scaled by 16000
//! (thousandths of sixteenths of one luminance level).

pub mod buffer;
pub mod contrast;
pub mod dither;
pub mod gamma;
pub mod pipeline;
pub mod threshold;
