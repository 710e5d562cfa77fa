//! Binarization by a static threshold.

use vstd::prelude::*;

use crate::buffer::LuminanceBuffer;

verus! {

/// One sample binarized: 255 if `s >= t`, else 0.
pub open spec fn threshold_map(s: u8, t: u8) -> u8 {
    if s >= t {
        255
    } else {
        0
    }
}

/// The buffer with every sample binarized against the threshold.
pub open spec fn threshold_mapped(input: Seq<u8>, t: u8) -> Seq<u8> {
    Seq::new(input.len(), |i: int| threshold_map(input[i], t))
}

/// Maps each sample to 255 if it is at or above the threshold, else to 0.
/// Stateless and pixel-independent.
pub fn apply_simple_threshold(img: &LuminanceBuffer, threshold: u8) -> (result: LuminanceBuffer)
    requires
        img.wf(),
    ensures
        result.wf(),
        result.width == img.width,
        result.height == img.height,
        result@ == threshold_mapped(img@, threshold),
        forall|i: int| 0 <= i < result@.len() ==> result@[i] == 0 || result@[i] == 255,
{
    let n = img.data.len();
    let mut data: Vec<u8> = Vec::new();
    let mut i: usize = 0;
    while i < n
        invariant
            i <= n,
            n == img.data@.len(),
            data@.len() == i,
            forall|j: int| 0 <= j < i ==> data@[j] == threshold_map(img.data@[j], threshold),
        decreases n - i,
    {
        let s = img.data[i];
        data.push(if s >= threshold { 255 } else { 0 });
        i = i + 1;
    }
    let result = LuminanceBuffer { width: img.width, height: img.height, data };
    proof {
        assert(result@ =~= threshold_mapped(img@, threshold));
    }
    result
}

} // verus!
