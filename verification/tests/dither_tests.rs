use eink_image::buffer::LuminanceBuffer;
use eink_image::dither::apply_floyd_steinberg_dithering;
use eink_image::gamma::GammaLut;
use eink_image::pipeline::process_image;
use eink_image::threshold::apply_simple_threshold;

fn buf(width: usize, height: usize, data: Vec<u8>) -> LuminanceBuffer {
    LuminanceBuffer::from_raw(width, height, data).unwrap()
}

fn identity_lut() -> GammaLut {
    GammaLut::from_table((0..256u32).map(|i| i as u8).collect()).unwrap()
}

#[test]
fn dither_golden_2x2() {
    // Hand-traced sweep: (0,0) effective 100 < 128 gives 0 with error
    // (100 - 0) * 0.8 = 80, sending 35 east, 25 south, 5 southeast;
    // (1,0) effective 185 gives 255 with error -56, sending -10.5 southwest
    // and -17.5 south; (0,1) effective 64.5 gives 0 sending 22.575 east;
    // (1,1) effective 210.075 gives 255.
    let img = buf(2, 2, vec![100, 150, 50, 200]);
    let out = apply_floyd_steinberg_dithering(&img, 800, 128);
    assert_eq!((out.width, out.height), (2, 2));
    assert_eq!(out.into_raw(), vec![0, 255, 0, 255]);
}

#[test]
fn dither_golden_through_pipeline() {
    let img = buf(2, 2, vec![100, 150, 50, 200]);
    let out = process_image(&img, &identity_lut(), 1000, true, 800, 128);
    assert_eq!(out.into_raw(), vec![0, 255, 0, 255]);
}

#[test]
fn dither_output_domain() {
    let data: Vec<u8> = (0..225u32).map(|i| (i * 31 % 256) as u8).collect();
    let img = buf(15, 15, data);
    let out = apply_floyd_steinberg_dithering(&img, 800, 128);
    assert_eq!((out.width, out.height), (15, 15));
    assert!(out.into_raw().iter().all(|&v| v == 0 || v == 255));
}

#[test]
fn dither_energy_conservation_checkerboard() {
    // Uniform mid-gray at full diffusion: every cell falls just short of the
    // threshold, and the conserved error flips every second cell, so the
    // average brightness survives as a checkerboard.
    let img = buf(3, 3, vec![127; 9]);
    let out = apply_floyd_steinberg_dithering(&img, 1000, 128);
    assert_eq!(out.into_raw(), vec![0, 255, 0, 255, 0, 255, 0, 255, 0]);
}

#[test]
fn dither_boundary_drops_east_share() {
    // Two equal samples in a row: the first sends 7/16 of its error east and
    // pushes the second over the threshold.
    let row = apply_floyd_steinberg_dithering(&buf(2, 1, vec![100, 100]), 800, 128);
    assert_eq!(row.into_raw(), vec![0, 255]);
    // The same samples in a column: the east and southeast shares are
    // dropped at the single-column boundary, only 5/16 flows south, and the
    // second sample stays below the threshold.
    let column = apply_floyd_steinberg_dithering(&buf(1, 2, vec![100, 100]), 800, 128);
    assert_eq!(column.into_raw(), vec![0, 0]);
}

#[test]
fn dither_zero_diffusion_degenerates_to_threshold() {
    let data = vec![100, 150, 50, 200, 127, 128, 0, 255, 64];
    let img = buf(3, 3, data);
    let dithered = apply_floyd_steinberg_dithering(&img, 0, 128);
    let thresholded = apply_simple_threshold(&img, 128);
    assert_eq!(dithered.into_raw(), thresholded.into_raw());
}

#[test]
fn dither_empty_buffer() {
    let img = buf(0, 0, vec![]);
    let out = apply_floyd_steinberg_dithering(&img, 800, 128);
    assert_eq!(out.into_raw(), Vec::<u8>::new());
}

#[test]
fn pipeline_threshold_mode() {
    let img = buf(2, 2, vec![100, 150, 50, 200]);
    let out = process_image(&img, &identity_lut(), 1000, false, 800, 128);
    assert_eq!(out.into_raw(), vec![0, 255, 0, 255]);
}

#[test]
fn pipeline_deterministic() {
    let data: Vec<u8> = (0..120u32).map(|i| (i * 53 % 256) as u8).collect();
    let img = buf(12, 10, data);
    let lut = GammaLut::from_table(
        (0..256u32)
            .map(|i| {
                let normalized = i as f32 / 255.0;
                (normalized.powf(1.0 / 2.2) * 255.0).round() as u8
            })
            .collect(),
    )
    .unwrap();
    let first = process_image(&img, &lut, 1300, true, 800, 128).into_raw();
    let second = process_image(&img, &lut, 1300, true, 800, 128).into_raw();
    assert_eq!(first, second);
    assert!(first.iter().all(|&v| v == 0 || v == 255));
}
