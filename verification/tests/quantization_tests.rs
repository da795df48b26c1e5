use steg::quantization::{compute_step, JPEG_LUMINANCE_QUANTIZATION_TABLE};
use steg::steganography::SteganographyEngine;

fn reference_table(quality: u8) -> [[f32; 8]; 8] {
    let quality_factor = quality.clamp(1, 100) as f32;
    let scaling_factor = if quality_factor < 50.0 {
        5000.0 / quality_factor
    } else {
        200.0 - 2.0 * quality_factor
    };
    let mut table = [[0.0f32; 8]; 8];
    for row in 0..8 {
        for column in 0..8 {
            let base = JPEG_LUMINANCE_QUANTIZATION_TABLE[row][column] as f32;
            table[row][column] = ((base * scaling_factor + 50.0) / 100.0).floor().clamp(1.0, 255.0);
        }
    }
    table
}

#[test]
fn table_matches_the_floating_point_formula_at_every_quality() {
    let engine = SteganographyEngine::new();
    for quality in 0..=255u8 {
        let table = engine.calculate_quantization_table(quality);
        let reference = reference_table(quality);
        for row in 0..8 {
            for column in 0..8 {
                assert_eq!(
                    table[row][column] as f32, reference[row][column],
                    "quality {} at ({}, {})",
                    quality, row, column
                );
            }
        }
    }
}

#[test]
fn table_at_quality_fifty_is_the_base_table() {
    let engine = SteganographyEngine::new();
    assert_eq!(engine.calculate_quantization_table(50), JPEG_LUMINANCE_QUANTIZATION_TABLE);
}

#[test]
fn table_at_quality_one_hundred_is_all_ones() {
    let engine = SteganographyEngine::new();
    assert_eq!(engine.calculate_quantization_table(100), [[1u8; 8]; 8]);
}

#[test]
fn table_entries_have_the_expected_values() {
    let engine = SteganographyEngine::new();
    let fine = engine.calculate_quantization_table(85);
    assert_eq!(fine[0][0], 5);
    assert_eq!(fine[4][1], 7);
    assert_eq!(fine[7][7], 30);
    let coarse = engine.calculate_quantization_table(10);
    assert_eq!(coarse[0][0], 80);
    assert_eq!(coarse[0][1], 55);
    assert_eq!(coarse[0][2], 50);
    assert_eq!(coarse[7][7], 255);
    let coarsest = engine.calculate_quantization_table(1);
    assert_eq!(coarsest, [[255u8; 8]; 8]);
    assert_eq!(engine.calculate_quantization_table(0), coarsest);
    assert_eq!(engine.calculate_quantization_table(200), [[1u8; 8]; 8]);
}

#[test]
fn steps_never_grow_with_quality() {
    let engine = SteganographyEngine::new();
    let mut previous = engine.calculate_quantization_table(1);
    for quality in 2..=100u8 {
        let table = engine.calculate_quantization_table(quality);
        for row in 0..8 {
            for column in 0..8 {
                assert!(table[row][column] <= previous[row][column]);
                assert!(table[row][column] >= 1);
            }
        }
        previous = table;
    }
}

#[test]
fn single_steps_are_scaled_and_limited() {
    assert_eq!(compute_step(16, 50), 16);
    assert_eq!(compute_step(16, 75), 8);
    assert_eq!(compute_step(16, 25), 32);
    assert_eq!(compute_step(121, 3), 255);
    assert_eq!(compute_step(10, 99), 1);
    assert_eq!(compute_step(51, 12), 213);
}
