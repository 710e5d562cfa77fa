//! Gamma remapping through a precomputed 256-entry lookup table.
//!
//! The table itself encodes the power-law curve `round(255 * (s/255)^(1/g))`;
//! computing that curve takes real-valued arithmetic and therefore happens
//! outside this library. Here the table is a plain value object, built once
//! per invocation, and applying it is direct indexing per sample.

use vstd::prelude::*;

use crate::buffer::LuminanceBuffer;

verus! {

/// An ordered sequence of 256 precomputed output levels, indexed by the
/// input sample value. Immutable once built.
pub struct GammaLut {
    pub table: Vec<u8>,
}

impl View for GammaLut {
    type V = Seq<u8>;

    open spec fn view(&self) -> Seq<u8> {
        self.table@
    }
}

impl GammaLut {
    /// The table has one entry per 8-bit input level.
    pub open spec fn wf(&self) -> bool {
        self.table@.len() == 256
    }

    /// Builds a lookup table from its 256 entries; rejects a vector of any
    /// other length.
    pub fn from_table(table: Vec<u8>) -> (result: Option<GammaLut>)
        ensures
            result is Some <==> table@.len() == 256,
            result is Some ==> {
                let lut = result->Some_0;
                &&& lut.wf()
                &&& lut@ == table@
            },
    {
        if table.len() == 256 {
            Some(GammaLut { table })
        } else {
            None
        }
    }
}

/// The buffer with every sample sent through the lookup table.
pub open spec fn gamma_mapped(lut: Seq<u8>, input: Seq<u8>) -> Seq<u8> {
    Seq::new(input.len(), |i: int| lut[input[i] as int])
}

/// Replaces each sample by its table entry.
pub fn apply_gamma_correction(img: &LuminanceBuffer, lut: &GammaLut) -> (result: LuminanceBuffer)
    requires
        img.wf(),
        lut.wf(),
    ensures
        result.wf(),
        result.width == img.width,
        result.height == img.height,
        result@ == gamma_mapped(lut@, img@),
{
    let n = img.data.len();
    let mut data: Vec<u8> = Vec::new();
    let mut i: usize = 0;
    while i < n
        invariant
            i <= n,
            n == img.data@.len(),
            lut.wf(),
            data@.len() == i,
            forall|j: int| 0 <= j < i ==> data@[j] == lut@[img.data@[j] as int],
        decreases n - i,
    {
        let s = img.data[i];
        data.push(lut.table[s as usize]);
        i = i + 1;
    }
    let result = LuminanceBuffer { width: img.width, height: img.height, data };
    proof {
        assert(result@ =~= gamma_mapped(lut@, img@));
    }
    result
}

/// An identity table maps every buffer to itself: with gamma 1.0 the
/// power-law curve `255 * (s/255)^(1/1)` is the identity on all 256 input
/// levels, so applying its table changes nothing.
pub proof fn lemma_gamma_identity(lut: Seq<u8>, input: Seq<u8>)
    requires
        lut.len() == 256,
        forall|i: int| 0 <= i < 256 ==> lut[i] == i,
    ensures
        gamma_mapped(lut, input) == input,
{
    assert(gamma_mapped(lut, input) =~= input);
}

} // verus!
