//! Linear contrast stretch around mid-gray.
//!
//! Each sample `s` is remapped to `clamp(((s/255 - 0.5) * c + 0.5) * 255, 0, 255)`
//! with the result truncated toward zero. The contrast level `c` arrives in
//! thousandths (`contrast_milli = round(c * 1000)`), which makes the formula
//! exact integer arithmetic: with `N = (2*s - 255) * contrast_milli + 255000`
//! the remapped sample is `N / 2000` truncated, clamped to `[0, 255]`.

use vstd::prelude::*;

use crate::buffer::LuminanceBuffer;

verus! {

/// One sample through the contrast stretch: `((s/255 - 1/2) * cm/1000 + 1/2) * 255`,
/// clamped to `[0, 255]` and truncated.
pub open spec fn contrast_map(s: u8, contrast_milli: u32) -> u8 {
    let num = (2 * s - 255) * contrast_milli + 255000;
    if num <= 0 {
        0
    } else if num >= 510000 {
        255
    } else {
        (num / 2000) as u8
    }
}

/// The buffer with every sample through the contrast stretch.
pub open spec fn contrast_mapped(input: Seq<u8>, contrast_milli: u32) -> Seq<u8> {
    Seq::new(input.len(), |i: int| contrast_map(input[i], contrast_milli))
}

/// Remaps one sample. Shared by the per-buffer stage below.
fn contrast_sample(s: u8, contrast_milli: u32) -> (result: u8)
    ensures
        result == contrast_map(s, contrast_milli),
{
    let signed: i64 = 2 * (s as i64) - 255;
    proof {
        assert(signed * (contrast_milli as i64) <= 255 * 0xffff_ffffi64
            && signed * (contrast_milli as i64) >= -255 * 0xffff_ffffi64) by (nonlinear_arith)
            requires
                -255 <= signed <= 255,
                0 <= contrast_milli <= 0xffff_ffffi64,
        ;
    }
    let num: i64 = signed * (contrast_milli as i64) + 255000;
    if num <= 0 {
        0
    } else if num >= 510000 {
        255
    } else {
        let q: u64 = (num as u64) / 2000;
        proof {
            assert(q == num as int / 2000 && q < 255) by (nonlinear_arith)
                requires
                    0 < num < 510000,
                    q == num as u64 / 2000,
                    num as u64 == num as int,
            ;
        }
        q as u8
    }
}

/// Applies the contrast stretch to every sample of the buffer.
pub fn enhance_contrast(img: &LuminanceBuffer, contrast_milli: u32) -> (result: LuminanceBuffer)
    requires
        img.wf(),
    ensures
        result.wf(),
        result.width == img.width,
        result.height == img.height,
        result@ == contrast_mapped(img@, contrast_milli),
{
    let n = img.data.len();
    let mut data: Vec<u8> = Vec::new();
    let mut i: usize = 0;
    while i < n
        invariant
            i <= n,
            n == img.data@.len(),
            data@.len() == i,
            forall|j: int| 0 <= j < i ==> data@[j] == contrast_map(img.data@[j], contrast_milli),
        decreases n - i,
    {
        let s = img.data[i];
        data.push(contrast_sample(s, contrast_milli));
        i = i + 1;
    }
    let result = LuminanceBuffer { width: img.width, height: img.height, data };
    proof {
        assert(result@ =~= contrast_mapped(img@, contrast_milli));
    }
    result
}

/// Contrast 1.0 is the identity: at `contrast_milli == 1000` the numerator
/// collapses to `2000 * s`, so every sample keeps its value.
pub proof fn lemma_contrast_identity(s: u8)
    ensures
        contrast_map(s, 1000) == s,
{
    let num = (2 * s - 255) * 1000 + 255000;
    assert(num == 2000 * s);
    if s == 255 {
        assert(contrast_map(s, 1000) == 255);
    } else {
        assert(num / 2000 == s) by (nonlinear_arith)
            requires
                num == 2000 * s,
        ;
    }
}

/// Contrast 0.0 collapses the image to uniform mid-gray: every sample maps
/// to 127 (`0.5 * 255` truncated).
pub proof fn lemma_contrast_collapse(s: u8)
    ensures
        contrast_map(s, 0) == 127,
{
    assert(contrast_map(s, 0) == (255000int / 2000) as u8);
    assert(255000int / 2000 == 127) by (nonlinear_arith);
}

} // verus!
