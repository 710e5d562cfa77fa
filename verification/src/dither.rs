//! Binarization by Floyd-Steinberg error diffusion.
//!
//! A single forward raster sweep (row-major, top-to-bottom, left-to-right,
//! no serpentine reversal) visits every cell exactly once. At each cell the
//! accumulated diffusion error is folded into the untouched input sample —
//! never into an already-written output sample, so propagated error cannot
//! compound through the output buffer — the sum is binarized against the
//! threshold, and the local error, scaled by the diffusion amount, is
//! distributed to the not-yet-visited neighbors with the canonical weights:
//! east 7/16, southwest 3/16, south 5/16, southeast 1/16. A share whose
//! target falls outside the buffer is dropped, not wrapped and not clamped
//! to an edge cell: boundary pixels receive strictly less diffused error
//! than interior pixels.
//!
//! The error grid holds fixed-point values scaled by 16000: the diffusion
//! amount arrives in thousandths and the kernel weights are sixteenths, so
//! one error share is `e * diffusion_milli * weight / 16000`, an exact
//! integer product truncated toward zero by the division. Each grid cell is
//! an `i64` and accumulation clamps to the `i64` range; a diffusion amount
//! above 1.0 is accepted and can grow the error without bound, so the grid
//! saturates at its rim instead of overflowing.

use vstd::prelude::*;

use vstd::arithmetic::div_mod::lemma_fundamental_div_mod;
use vstd::arithmetic::div_mod::lemma_fundamental_div_mod_converse;
use vstd::arithmetic::div_mod::lemma_mod_division_less_than_divisor;
use vstd::arithmetic::div_mod::lemma_div_pos_is_pos;
use vstd::arithmetic::div_mod::lemma_div_nonincreasing;
use vstd::arithmetic::div_mod::lemma_div_is_ordered;
use vstd::arithmetic::div_mod::lemma_div_by_self;
use vstd::arithmetic::div_mod::lemma_mod_bound;

use crate::buffer::LuminanceBuffer;

verus! {

/// The `i64` range, as the clamp applied when error accumulates into a cell.
pub open spec fn clamp_i64(v: int) -> int {
    if v < i64::MIN as int {
        i64::MIN as int
    } else if v > i64::MAX as int {
        i64::MAX as int
    } else {
        v
    }
}

/// Division truncated toward zero (the rounding of the fixed-point error
/// shares), for a positive divisor.
pub open spec fn trunc_div(a: int, b: int) -> int {
    if a >= 0 {
        a / b
    } else {
        -((-a) / b)
    }
}

/// The error share sent to one neighbor: the local error `e` (scaled by
/// 16000) times the diffusion amount in thousandths times the kernel weight
/// in sixteenths.
pub open spec fn contribution(e: int, diffusion_milli: u32, weight: int) -> int {
    trunc_div(e * diffusion_milli * weight, 16000)
}

/// One error share accumulated into grid cell `j`, clamped to the cell range.
pub open spec fn diffuse(err: Seq<int>, j: int, e: int, diffusion_milli: u32, weight: int) -> Seq<int> {
    err.update(j, clamp_i64(err[j] + contribution(e, diffusion_milli, weight)))
}

/// One step of the sweep: visiting cell `k` of a `w` by `h` grid. Reads the
/// accumulated error, binarizes, and distributes the local error east,
/// southwest, south, southeast — each share only if its target lies inside
/// the grid.
pub open spec fn dither_step(
    err: Seq<int>,
    out: Seq<u8>,
    input: Seq<u8>,
    w: int,
    h: int,
    t: u8,
    diffusion_milli: u32,
    k: int,
) -> (Seq<int>, Seq<u8>) {
    let x: int = k % w;
    let y: int = k / w;
    let eff: int = input[k] * 16000 + err[k];
    let out_v: u8 = if eff >= t * 16000 {
        255u8
    } else {
        0u8
    };
    let e: int = eff - out_v * 16000;
    let err_east: Seq<int> = if x + 1 < w {
        diffuse(err, k + 1, e, diffusion_milli, 7)
    } else {
        err
    };
    let err_sw: Seq<int> = if y + 1 < h && x > 0 {
        diffuse(err_east, k + w - 1, e, diffusion_milli, 3)
    } else {
        err_east
    };
    let err_south: Seq<int> = if y + 1 < h {
        diffuse(err_sw, k + w, e, diffusion_milli, 5)
    } else {
        err_sw
    };
    let err_se: Seq<int> = if y + 1 < h && x + 1 < w {
        diffuse(err_south, k + w + 1, e, diffusion_milli, 1)
    } else {
        err_south
    };
    (err_se, out.update(k, out_v))
}

/// The error grid and output buffer after the first `k` cells of the sweep.
/// The error grid starts all zero; the output starts as a copy of the input,
/// whose not-yet-visited cells are never read and are overwritten in turn.
pub open spec fn dither_state(
    input: Seq<u8>,
    w: int,
    h: int,
    t: u8,
    diffusion_milli: u32,
    k: nat,
) -> (Seq<int>, Seq<u8>)
    decreases k,
{
    if k == 0 {
        (Seq::new(input.len(), |i: int| 0int), input)
    } else {
        let prev = dither_state(input, w, h, t, diffusion_milli, (k - 1) as nat);
        dither_step(prev.0, prev.1, input, w, h, t, diffusion_milli, k - 1)
    }
}

/// The buffer produced by the complete sweep.
pub open spec fn dither_output(input: Seq<u8>, w: int, h: int, t: u8, diffusion_milli: u32) -> Seq<u8> {
    dither_state(input, w, h, t, diffusion_milli, input.len()).1
}

/// Position facts for cell `j` of a `w` by `h` row-major grid: its column
/// and row, and that each in-grid neighbor index stays inside the grid.
proof fn lemma_scan_bounds(j: int, w: int, h: int)
    requires
        0 <= w,
        0 <= h,
        0 <= j < w * h,
    ensures
        0 < w,
        0 < h,
        0 <= j % w < w,
        0 <= j / w < h,
        j == w * (j / w) + (j % w),
        (j % w) + 1 < w ==> j + 1 < w * h,
        (j / w) + 1 < h ==> j + w < w * h,
        (j / w) + 1 < h && (j % w) + 1 < w ==> j + w + 1 < w * h,
{
    assert(0 < w && 0 < h) by (nonlinear_arith)
        requires
            0 <= w,
            0 <= h,
            0 <= j < w * h,
    ;
    lemma_fundamental_div_mod(j, w);
    lemma_mod_division_less_than_divisor(j, w);
    lemma_div_pos_is_pos(j, w);
    let x: int = j % w;
    let y: int = j / w;
    assert(y < h) by (nonlinear_arith)
        requires
            j == w * y + x,
            0 <= x < w,
            j < w * h,
            0 <= y,
    ;
    assert((x + 1 < w ==> j + 1 < w * h) && (y + 1 < h ==> j + w < w * h) && (y + 1 < h && x + 1 < w
        ==> j + w + 1 < w * h)) by (nonlinear_arith)
        requires
            j == w * y + x,
            0 <= x < w,
            0 <= y < h,
    ;
}

/// After any number of steps the grids keep the input's length, and every
/// visited cell of the output holds 0 or 255: the sweep's output domain.
pub proof fn lemma_dither_state_wf(
    input: Seq<u8>,
    w: int,
    h: int,
    t: u8,
    diffusion_milli: u32,
    k: nat,
)
    requires
        input.len() == w * h,
        0 <= w,
        0 <= h,
        k <= w * h,
    ensures
        dither_state(input, w, h, t, diffusion_milli, k).0.len() == input.len(),
        dither_state(input, w, h, t, diffusion_milli, k).1.len() == input.len(),
        forall|j: int|
            0 <= j < k ==> #[trigger] dither_state(input, w, h, t, diffusion_milli, k).1[j] == 0
                || dither_state(input, w, h, t, diffusion_milli, k).1[j] == 255,
    decreases k,
{
    if k > 0 {
        lemma_dither_state_wf(input, w, h, t, diffusion_milli, (k - 1) as nat);
        lemma_scan_bounds(k - 1, w, h);
    }
}

/// Truncating division is odd in its dividend.
proof fn lemma_trunc_div_neg(a: int, b: int)
    requires
        b > 0,
    ensures
        trunc_div(-a, b) == -trunc_div(a, b),
{
    if a == 0 {
        assert(trunc_div(0, b) == 0) by {
            vstd::arithmetic::div_mod::lemma_div_of0(b);
        }
    }
}

/// The four outgoing shares of a nonnegative local error, at full diffusion.
proof fn lemma_energy_conservation_nonneg(e: int)
    requires
        e >= 0,
    ensures
        e - 3 <= contribution(e, 1000, 7) + contribution(e, 1000, 3) + contribution(e, 1000, 5)
            + contribution(e, 1000, 1) <= e,
        e % 16 == 0 ==> contribution(e, 1000, 7) + contribution(e, 1000, 3) + contribution(
            e,
            1000,
            5,
        ) + contribution(e, 1000, 1) == e,
{
    let a7: int = e * 1000 * 7;
    let a3: int = e * 1000 * 3;
    let a5: int = e * 1000 * 5;
    let a1: int = e * 1000 * 1;
    lemma_fundamental_div_mod(a7, 16000);
    lemma_fundamental_div_mod(a3, 16000);
    lemma_fundamental_div_mod(a5, 16000);
    lemma_fundamental_div_mod(a1, 16000);
    lemma_mod_bound(a7, 16000);
    lemma_mod_bound(a3, 16000);
    lemma_mod_bound(a5, 16000);
    lemma_mod_bound(a1, 16000);
    assert(a7 + a3 + a5 + a1 == 16000 * e);
    if e % 16 == 0 {
        let f: int = e / 16;
        lemma_fundamental_div_mod(e, 16);
        assert(a7 == 16000 * (7 * f) + 0);
        lemma_fundamental_div_mod_converse(a7, 16000, 7 * f, 0);
        assert(a3 == 16000 * (3 * f) + 0);
        lemma_fundamental_div_mod_converse(a3, 16000, 3 * f, 0);
        assert(a5 == 16000 * (5 * f) + 0);
        lemma_fundamental_div_mod_converse(a5, 16000, 5 * f, 0);
        assert(a1 == 16000 * (1 * f) + 0);
        lemma_fundamental_div_mod_converse(a1, 16000, 1 * f, 0);
    }
}

/// Energy conservation at full diffusion: with diffusion amount 1.0 the
/// four Floyd-Steinberg weights sum to 16/16, so the shares an interior
/// pixel sends to its four neighbors add up to the whole local error —
/// exactly when the error divides evenly, and otherwise short of at most
/// 3 fixed-point units lost to truncation, never amplified beyond it.
pub proof fn lemma_energy_conservation(e: int)
    ensures
        ({
            let total = contribution(e, 1000, 7) + contribution(e, 1000, 3) + contribution(
                e,
                1000,
                5,
            ) + contribution(e, 1000, 1);
            &&& e >= 0 ==> e - 3 <= total <= e
            &&& e <= 0 ==> e <= total <= e + 3
            &&& e % 16 == 0 ==> total == e
        }),
{
    if e >= 0 {
        lemma_energy_conservation_nonneg(e);
    } else {
        lemma_energy_conservation_nonneg(-e);
        lemma_trunc_div_neg(-e * 1000 * 7, 16000);
        lemma_trunc_div_neg(-e * 1000 * 3, 16000);
        lemma_trunc_div_neg(-e * 1000 * 5, 16000);
        lemma_trunc_div_neg(-e * 1000 * 1, 16000);
        assert(e * 1000 * 7 == -(-e * 1000 * 7));
        assert(e * 1000 * 3 == -(-e * 1000 * 3));
        assert(e * 1000 * 5 == -(-e * 1000 * 5));
        assert(e * 1000 * 1 == -(-e * 1000 * 1));
        if e % 16 == 0 {
            lemma_fundamental_div_mod(e, 16);
            lemma_fundamental_div_mod_converse(-e, 16, -(e / 16), 0);
        }
    }
}

/// Boundary error loss: a pixel on the last column has no east and no
/// southeast neighbor, so the 7/16 and 1/16 shares of its error are dropped
/// rather than redistributed. The error it propagates into the grid never
/// exceeds, and once the east share is nonzero falls strictly short of (in
/// magnitude), what an interior pixel with the same local error propagates.
pub proof fn lemma_boundary_error_loss(e: int, diffusion_milli: u32)
    ensures
        ({
            let interior = contribution(e, diffusion_milli, 7) + contribution(e, diffusion_milli, 3)
                + contribution(e, diffusion_milli, 5) + contribution(e, diffusion_milli, 1);
            let last_column = contribution(e, diffusion_milli, 3) + contribution(
                e,
                diffusion_milli,
                5,
            );
            &&& e >= 0 ==> last_column <= interior
            &&& e <= 0 ==> interior <= last_column
            &&& e * diffusion_milli * 7 >= 16000 ==> last_column < interior
            &&& e * diffusion_milli * 7 <= -16000 ==> interior < last_column
        }),
{
    let dm: int = diffusion_milli as int;
    if e >= 0 {
        assert(e * dm * 7 >= 0 && e * dm * 1 >= 0) by (nonlinear_arith)
            requires
                e >= 0,
                dm >= 0,
        ;
        lemma_div_pos_is_pos(e * dm * 7, 16000);
        lemma_div_pos_is_pos(e * dm * 1, 16000);
    } else {
        assert(-e * dm * 7 >= 0 && -e * dm * 1 >= 0) by (nonlinear_arith)
            requires
                e < 0,
                dm >= 0,
        ;
        lemma_div_pos_is_pos(-e * dm * 7, 16000);
        lemma_div_pos_is_pos(-e * dm * 1, 16000);
        lemma_trunc_div_neg(-e * dm * 7, 16000);
        lemma_trunc_div_neg(-e * dm * 1, 16000);
        assert(e * dm * 7 == -(-e * dm * 7) && e * dm * 1 == -(-e * dm * 1)) by (nonlinear_arith);
    }
    if e * dm * 7 >= 16000 {
        lemma_div_is_ordered(16000, e * dm * 7, 16000);
        lemma_div_by_self(16000);
        assert(e >= 0) by (nonlinear_arith)
            requires
                e * dm * 7 >= 16000,
                dm >= 0,
        ;
    }
    if e * dm * 7 <= -16000 {
        lemma_div_is_ordered(16000, -(e * dm * 7), 16000);
        lemma_div_by_self(16000);
        assert(e <= 0) by (nonlinear_arith)
            requires
                e * dm * 7 <= -16000,
                dm >= 0,
        ;
        lemma_trunc_div_neg(-(e * dm * 7), 16000);
    }
}

/// Zero diffusion leaves the error grid untouched and binarizes the first
/// `k` cells independently.
proof fn lemma_dither_zero_diffusion(input: Seq<u8>, w: int, h: int, t: u8, k: nat)
    requires
        input.len() == w * h,
        0 <= w,
        0 <= h,
        k <= w * h,
    ensures
        dither_state(input, w, h, t, 0u32, k).0 =~= Seq::new(input.len(), |i: int| 0int),
        dither_state(input, w, h, t, 0u32, k).1 =~= Seq::new(
            input.len(),
            |j: int| if j < k {
                crate::threshold::threshold_map(input[j], t)
            } else {
                input[j]
            },
        ),
    decreases k,
{
    if k > 0 {
        lemma_dither_zero_diffusion(input, w, h, t, (k - 1) as nat);
        lemma_scan_bounds(k - 1, w, h);
        vstd::arithmetic::div_mod::lemma_div_of0(16000);
    }
}

/// A diffusion amount of 0.0 degenerates to pure per-pixel thresholding:
/// every error share is zero, so the sweep binarizes each sample
/// independently and produces exactly the static-threshold output.
pub proof fn lemma_zero_diffusion_is_threshold(input: Seq<u8>, w: int, h: int, t: u8)
    requires
        input.len() == w * h,
        0 <= w,
        0 <= h,
    ensures
        dither_output(input, w, h, t, 0u32) == crate::threshold::threshold_mapped(input, t),
{
    lemma_dither_zero_diffusion(input, w, h, t, input.len());
    assert(dither_output(input, w, h, t, 0u32) =~= crate::threshold::threshold_mapped(input, t));
}

/// The error grid as mathematical integers.
pub open spec fn err_view(v: Seq<i64>) -> Seq<int> {
    Seq::new(v.len(), |i: int| v[i] as int)
}

/// Division truncated toward zero, computed on magnitudes.
fn trunc_div_i128(a: i128, b: i128) -> (q: i128)
    requires
        b > 0,
        a > i128::MIN,
    ensures
        q == trunc_div(a as int, b as int),
        a >= 0 ==> 0 <= q <= a,
        a < 0 ==> a <= q <= 0,
{
    if a >= 0 {
        let qa: u128 = (a as u128) / (b as u128);
        proof {
            lemma_div_pos_is_pos(a as int, b as int);
            lemma_div_nonincreasing(a as int, b as int);
        }
        qa as i128
    } else {
        let na: i128 = -a;
        let qa: u128 = (na as u128) / (b as u128);
        proof {
            lemma_div_pos_is_pos(na as int, b as int);
            lemma_div_nonincreasing(na as int, b as int);
        }
        -(qa as i128)
    }
}

/// Accumulates one error share into grid cell `j`, clamping to the cell
/// range.
fn add_contribution(err: &mut Vec<i64>, j: usize, e: i128, diffusion_milli: u32, weight: u32)
    requires
        j < old(err).len(),
        1 <= weight <= 7,
        -0x8000_0000_0040_0000i128 <= e <= 0x8000_0000_0040_0000i128,
    ensures
        final(err)@.len() == old(err)@.len(),
        err_view(final(err)@) == diffuse(err_view(old(err)@), j as int, e as int, diffusion_milli, weight as int),
{
    proof {
        assert(-0x1_0000_0000_0000_0000_0000_0000i128 <= e * (diffusion_milli as i128)
            <= 0x1_0000_0000_0000_0000_0000_0000i128 && -0x8_0000_0000_0000_0000_0000_0000i128 <= e
            * (diffusion_milli as i128) * (weight as i128)
            <= 0x8_0000_0000_0000_0000_0000_0000i128) by (nonlinear_arith)
            requires
                -0x8000_0000_0040_0000i128 <= e <= 0x8000_0000_0040_0000i128,
                0 <= diffusion_milli <= 0xffff_ffffu32,
                1 <= weight <= 7,
        ;
    }
    let c: i128 = e * (diffusion_milli as i128) * (weight as i128);
    let q: i128 = trunc_div_i128(c, 16000);
    let sum: i128 = (err[j] as i128) + q;
    let v: i64 = if sum < i64::MIN as i128 {
        i64::MIN
    } else if sum > i64::MAX as i128 {
        i64::MAX
    } else {
        sum as i64
    };
    err.set(j, v);
    proof {
        assert(v as int == clamp_i64(err_view(old(err)@)[j as int] + contribution(
            e as int,
            diffusion_milli,
            weight as int,
        )));
        assert(err_view(err@) =~= diffuse(
            err_view(old(err)@),
            j as int,
            e as int,
            diffusion_milli,
            weight as int,
        ));
    }
}

/// Binarizes the buffer by a single Floyd-Steinberg error-diffusion sweep.
/// The output holds only the two levels 0 and 255.
pub fn apply_floyd_steinberg_dithering(
    img: &LuminanceBuffer,
    diffusion_milli: u32,
    threshold: u8,
) -> (result: LuminanceBuffer)
    requires
        img.wf(),
    ensures
        result.wf(),
        result.width == img.width,
        result.height == img.height,
        result@ == dither_output(img@, img.width as int, img.height as int, threshold, diffusion_milli),
        forall|i: int| 0 <= i < result@.len() ==> result@[i] == 0 || result@[i] == 255,
{
    let w: usize = img.width;
    let h: usize = img.height;
    let n: usize = img.data.len();
    let ghost gw: int = w as int;
    let ghost gh: int = h as int;

    let mut out: Vec<u8> = Vec::new();
    let mut i: usize = 0;
    while i < n
        invariant
            i <= n,
            n == img.data@.len(),
            out@ == img.data@.subrange(0, i as int),
        decreases n - i,
    {
        out.push(img.data[i]);
        proof {
            assert(out@ =~= img.data@.subrange(0, i + 1));
        }
        i = i + 1;
    }
    let mut err: Vec<i64> = Vec::new();
    let mut i: usize = 0;
    while i < n
        invariant
            i <= n,
            err@.len() == i,
            forall|j: int| 0 <= j < i ==> err@[j] == 0i64,
        decreases n - i,
    {
        err.push(0i64);
        i = i + 1;
    }
    proof {
        assert(out@ =~= img@);
        assert(err_view(err@) =~= dither_state(img@, gw, gh, threshold, diffusion_milli, 0).0);
    }

    let mut k: usize = 0;
    while k < n
        invariant
            img.wf(),
            w == img.width,
            h == img.height,
            gw == w as int,
            gh == h as int,
            n == img.data@.len(),
            k <= n,
            out@.len() == n,
            err@.len() == n,
            err_view(err@) == dither_state(img@, gw, gh, threshold, diffusion_milli, k as nat).0,
            out@ == dither_state(img@, gw, gh, threshold, diffusion_milli, k as nat).1,
        decreases n - k,
    {
        proof {
            lemma_scan_bounds(k as int, gw, gh);
        }
        let x: usize = k % w;
        let y: usize = k / w;
        let ghost st = dither_state(img@, gw, gh, threshold, diffusion_milli, k as nat);
        let eff: i128 = (img.data[k] as i128) * 16000 + (err[k] as i128);
        let out_v: u8 = if eff >= (threshold as i128) * 16000 {
            255u8
        } else {
            0u8
        };
        let e: i128 = eff - (out_v as i128) * 16000;
        out.set(k, out_v);
        let ghost e_spec: int = e as int;
        let ghost err0 = err_view(err@);
        if x + 1 < w {
            add_contribution(&mut err, k + 1, e, diffusion_milli, 7);
        }
        let ghost err_east = err_view(err@);
        if y + 1 < h {
            if x > 0 {
                add_contribution(&mut err, k + w - 1, e, diffusion_milli, 3);
            }
        }
        let ghost err_sw = err_view(err@);
        if y + 1 < h {
            add_contribution(&mut err, k + w, e, diffusion_milli, 5);
        }
        let ghost err_south = err_view(err@);
        if y + 1 < h {
            if x + 1 < w {
                add_contribution(&mut err, k + w + 1, e, diffusion_milli, 1);
            }
        }
        proof {
            let ki: int = k as int;
            let step = dither_step(st.0, st.1, img@, gw, gh, threshold, diffusion_milli, ki);
            assert(eff as int == img@[ki] * 16000 + st.0[ki]);
            assert(err_east == if ki % gw + 1 < gw {
                diffuse(err0, ki + 1, e_spec, diffusion_milli, 7)
            } else {
                err0
            });
            assert(err_sw == if ki / gw + 1 < gh && ki % gw > 0 {
                diffuse(err_east, ki + gw - 1, e_spec, diffusion_milli, 3)
            } else {
                err_east
            });
            assert(err_south == if ki / gw + 1 < gh {
                diffuse(err_sw, ki + gw, e_spec, diffusion_milli, 5)
            } else {
                err_sw
            });
            assert(err_view(err@) == if ki / gw + 1 < gh && ki % gw + 1 < gw {
                diffuse(err_south, ki + gw + 1, e_spec, diffusion_milli, 1)
            } else {
                err_south
            });
            assert(err_view(err@) == step.0);
            assert(out@ == step.1);
            assert(dither_state(img@, gw, gh, threshold, diffusion_milli, (k + 1) as nat) == step);
        }
        k = k + 1;
    }
    let result = LuminanceBuffer { width: w, height: h, data: out };
    proof {
        lemma_dither_state_wf(img@, gw, gh, threshold, diffusion_milli, n as nat);
    }
    result
}

} // verus!
