use eink_image::buffer::LuminanceBuffer;
use eink_image::contrast::enhance_contrast;
use eink_image::gamma::apply_gamma_correction;
use eink_image::gamma::GammaLut;
use eink_image::threshold::apply_simple_threshold;

fn buf(width: usize, height: usize, data: Vec<u8>) -> LuminanceBuffer {
    LuminanceBuffer::from_raw(width, height, data).unwrap()
}

/// The 256-entry power-law table `round(255 * (i/255)^(1/gamma))`, computed
/// the way a caller of the library computes it.
fn float_gamma_table(gamma: f32) -> Vec<u8> {
    (0..256u32)
        .map(|i| {
            let normalized = i as f32 / 255.0;
            let corrected = normalized.powf(1.0 / gamma);
            (corrected * 255.0).round() as u8
        })
        .collect()
}

#[test]
fn from_raw_accepts_matching_dimensions() {
    let b = buf(3, 2, vec![1, 2, 3, 4, 5, 6]);
    assert_eq!(b.width, 3);
    assert_eq!(b.height, 2);
    assert_eq!(b.len(), 6);
    assert_eq!(b.get(0, 0), 1);
    assert_eq!(b.get(2, 0), 3);
    assert_eq!(b.get(0, 1), 4);
    assert_eq!(b.get(2, 1), 6);
}

#[test]
fn from_raw_rejects_mismatched_length() {
    assert!(LuminanceBuffer::from_raw(3, 2, vec![0; 5]).is_none());
    assert!(LuminanceBuffer::from_raw(3, 2, vec![0; 7]).is_none());
    assert!(LuminanceBuffer::from_raw(0, 0, vec![]).is_some());
}

#[test]
fn gamma_lut_rejects_wrong_length() {
    assert!(GammaLut::from_table(vec![0; 255]).is_none());
    assert!(GammaLut::from_table(vec![0; 256]).is_some());
}

#[test]
fn gamma_identity() {
    // The power-law curve at gamma 1.0 is the identity on all 256 levels.
    let table = float_gamma_table(1.0);
    let expected: Vec<u8> = (0..256u32).map(|i| i as u8).collect();
    assert_eq!(table, expected);

    let every_level: Vec<u8> = (0..256u32).map(|i| i as u8).collect();
    let img = buf(16, 16, every_level.clone());
    let lut = GammaLut::from_table(table).unwrap();
    let out = apply_gamma_correction(&img, &lut);
    assert_eq!(out.into_raw(), every_level);
}

#[test]
fn gamma_applies_table_by_indexing() {
    // An inverting table must invert every sample.
    let table: Vec<u8> = (0..256u32).map(|i| 255 - i as u8).collect();
    let lut = GammaLut::from_table(table).unwrap();
    let img = buf(2, 2, vec![0, 1, 128, 255]);
    let out = apply_gamma_correction(&img, &lut);
    assert_eq!(out.into_raw(), vec![255, 254, 127, 0]);
}

#[test]
fn contrast_identity() {
    let every_level: Vec<u8> = (0..256u32).map(|i| i as u8).collect();
    let img = buf(16, 16, every_level.clone());
    let out = enhance_contrast(&img, 1000);
    assert_eq!(out.into_raw(), every_level);
}

#[test]
fn contrast_collapse_to_mid_gray() {
    let every_level: Vec<u8> = (0..256u32).map(|i| i as u8).collect();
    let img = buf(16, 16, every_level);
    let out = enhance_contrast(&img, 0);
    assert!(out.into_raw().iter().all(|&s| s == 127));
}

#[test]
fn contrast_exact_values() {
    // (100/255 - 0.5) * 1.3 + 0.5 scaled back to bytes is 91.75, truncated.
    let img = buf(2, 1, vec![100, 200]);
    let out = enhance_contrast(&img, 1300);
    assert_eq!(out.into_raw(), vec![91, 221]);
}

#[test]
fn contrast_clamps_instead_of_wrapping() {
    let img = buf(4, 1, vec![0, 64, 192, 255]);
    let out = enhance_contrast(&img, 2000);
    assert_eq!(out.into_raw(), vec![0, 0, 255, 255]);
}

#[test]
fn threshold_monotonicity() {
    let every_level: Vec<u8> = (0..256u32).map(|i| i as u8).collect();
    for t in [0u8, 1, 100, 128, 200, 255] {
        let img = buf(16, 16, every_level.clone());
        let out = apply_simple_threshold(&img, t).into_raw();
        for (i, &v) in out.iter().enumerate() {
            let s = i as u8;
            if s >= t {
                assert_eq!(v, 255);
            } else {
                assert_eq!(v, 0);
            }
        }
    }
}

#[test]
fn stages_preserve_shape() {
    let img = buf(5, 3, (0..15u8).map(|i| i * 17).collect());
    let lut = GammaLut::from_table(float_gamma_table(2.2)).unwrap();
    let g = apply_gamma_correction(&img, &lut);
    assert_eq!((g.width, g.height, g.len()), (5, 3, 15));
    let c = enhance_contrast(&g, 1300);
    assert_eq!((c.width, c.height, c.len()), (5, 3, 15));
    let t = apply_simple_threshold(&c, 128);
    assert_eq!((t.width, t.height, t.len()), (5, 3, 15));
}
