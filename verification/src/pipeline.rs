//! The full pipeline: gamma remap, contrast stretch, then binarization by
//! threshold or by Floyd-Steinberg dithering. Data flows strictly linearly;
//! each stage consumes one buffer and produces a fresh buffer of identical
//! dimensions.

use vstd::prelude::*;

use crate::buffer::LuminanceBuffer;
use crate::contrast::contrast_mapped;
use crate::contrast::enhance_contrast;
use crate::dither::apply_floyd_steinberg_dithering;
use crate::dither::dither_output;
use crate::gamma::apply_gamma_correction;
use crate::gamma::gamma_mapped;
use crate::gamma::GammaLut;
use crate::threshold::apply_simple_threshold;
use crate::threshold::threshold_mapped;

verus! {

/// The buffer produced by the whole pipeline: gamma, then contrast, then
/// one of the two binarizers.
pub open spec fn pipeline_spec(
    input: Seq<u8>,
    w: int,
    h: int,
    lut: Seq<u8>,
    contrast_milli: u32,
    enable_dither: bool,
    diffusion_milli: u32,
    threshold: u8,
) -> Seq<u8> {
    let stretched = contrast_mapped(gamma_mapped(lut, input), contrast_milli);
    if enable_dither {
        dither_output(stretched, w, h, threshold, diffusion_milli)
    } else {
        threshold_mapped(stretched, threshold)
    }
}

/// Runs the whole pipeline on a luminance buffer. The output has the
/// input's dimensions and holds only the two levels 0 and 255.
pub fn process_image(
    img: &LuminanceBuffer,
    lut: &GammaLut,
    contrast_milli: u32,
    enable_dither: bool,
    diffusion_milli: u32,
    threshold: u8,
) -> (result: LuminanceBuffer)
    requires
        img.wf(),
        lut.wf(),
    ensures
        result.wf(),
        result.width == img.width,
        result.height == img.height,
        result@.len() == img@.len(),
        result@ == pipeline_spec(
            img@,
            img.width as int,
            img.height as int,
            lut@,
            contrast_milli,
            enable_dither,
            diffusion_milli,
            threshold,
        ),
        forall|i: int| 0 <= i < result@.len() ==> result@[i] == 0 || result@[i] == 255,
{
    let remapped = apply_gamma_correction(img, lut);
    let stretched = enhance_contrast(&remapped, contrast_milli);
    if enable_dither {
        apply_floyd_steinberg_dithering(&stretched, diffusion_milli, threshold)
    } else {
        apply_simple_threshold(&stretched, threshold)
    }
}

/// Determinism: the pipeline's output is a function of the input buffer and
/// the scalar parameters alone, so two runs on identical input and
/// parameters yield byte-identical output.
pub proof fn lemma_pipeline_deterministic(
    first: Seq<u8>,
    second: Seq<u8>,
    input: Seq<u8>,
    w: int,
    h: int,
    lut: Seq<u8>,
    contrast_milli: u32,
    enable_dither: bool,
    diffusion_milli: u32,
    threshold: u8,
)
    requires
        first == pipeline_spec(input, w, h, lut, contrast_milli, enable_dither, diffusion_milli, threshold),
        second == pipeline_spec(input, w, h, lut, contrast_milli, enable_dither, diffusion_milli, threshold),
    ensures
        first == second,
{
}

} // verus!
