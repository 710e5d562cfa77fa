//! The rectangular single-channel luminance buffer that every pipeline
//! stage consumes and produces.

use vstd::prelude::*;

verus! {

/// A rectangular grid of `width * height` 8-bit luminance samples,
/// stored row-major with no padding: the sample at column `x`, row `y`
/// sits at index `y * width + x`.
pub struct LuminanceBuffer {
    pub width: usize,
    pub height: usize,
    pub data: Vec<u8>,
}

impl View for LuminanceBuffer {
    type V = Seq<u8>;

    open spec fn view(&self) -> Seq<u8> {
        self.data@
    }
}

impl LuminanceBuffer {
    /// The buffer is rectangular: it holds exactly one sample per cell.
    pub open spec fn wf(&self) -> bool {
        self.data@.len() == self.width * self.height
    }

    /// Builds a buffer from raw row-major samples; rejects a data vector
    /// whose length does not match the stated dimensions.
    pub fn from_raw(width: usize, height: usize, data: Vec<u8>) -> (result: Option<LuminanceBuffer>)
        ensures
            result is Some <==> data@.len() == width * height,
            result is Some ==> {
                let b = result->Some_0;
                &&& b.wf()
                &&& b.width == width
                &&& b.height == height
                &&& b@ == data@
            },
    {
        if width.checked_mul(height) == Some(data.len()) {
            Some(LuminanceBuffer { width, height, data })
        } else {
            None
        }
    }

    /// The sample at column `x`, row `y`.
    pub fn get(&self, x: usize, y: usize) -> (result: u8)
        requires
            self.wf(),
            x < self.width,
            y < self.height,
        ensures
            result == self@[y * self.width + x],
    {
        let n = self.data.len();
        proof {
            vstd::arithmetic::mul::lemma_mul_inequality(y as int + 1, self.height as int, self.width as int);
            assert((y as int + 1) * (self.width as int) == y as int * self.width as int + self.width as int) by (nonlinear_arith);
            assert(y * self.width + x < n);
        }
        self.data[y * self.width + x]
    }

    /// The number of samples, `width * height`.
    pub fn len(&self) -> (result: usize)
        ensures
            result == self@.len(),
    {
        self.data.len()
    }

    /// Gives up the buffer and hands back its raw row-major samples.
    pub fn into_raw(self) -> (result: Vec<u8>)
        ensures
            result@ == self@,
    {
        self.data
    }
}

} // verus!
