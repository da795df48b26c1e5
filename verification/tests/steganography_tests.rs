use steg::error::SteganographyError;
use steg::raster::{GrayImage, PixelGrid, RgbImage, RgbPixel};
use steg::steganography::{EmbeddingConfiguration, SteganographyEngine};

fn cosine(frequency: usize, position: usize) -> f32 {
    ((2 * position + 1) as f32 * frequency as f32 * std::f32::consts::PI / 16.0).cos()
}

fn normalization(frequency: usize) -> f32 {
    if frequency == 0 {
        1.0 / (2.0_f32).sqrt()
    } else {
        1.0
    }
}

fn forward_1d(values: &[f32; 8]) -> [f32; 8] {
    let mut output = [0f32; 8];
    for frequency in 0..8 {
        let mut sum = 0.0;
        for position in 0..8 {
            sum += values[position] * cosine(frequency, position);
        }
        output[frequency] = 0.5 * normalization(frequency) * sum;
    }
    output
}

fn inverse_1d(coefficients: &[f32; 8]) -> [f32; 8] {
    let mut output = [0f32; 8];
    for position in 0..8 {
        let mut sum = 0.0;
        for frequency in 0..8 {
            sum += normalization(frequency) * coefficients[frequency] * cosine(frequency, position);
        }
        output[position] = 0.5 * sum;
    }
    output
}

fn forward_2d(block: &mut [[f32; 8]; 8]) {
    for row in block.iter_mut() {
        *row = forward_1d(row);
    }
    for column in 0..8 {
        let mut values = [0f32; 8];
        for row in 0..8 {
            values[row] = block[row][column];
        }
        let transformed = forward_1d(&values);
        for row in 0..8 {
            block[row][column] = transformed[row];
        }
    }
}

fn inverse_2d(block: &mut [[f32; 8]; 8]) {
    for column in 0..8 {
        let mut values = [0f32; 8];
        for row in 0..8 {
            values[row] = block[row][column];
        }
        let restored = inverse_1d(&values);
        for row in 0..8 {
            block[row][column] = restored[row];
        }
    }
    for row in block.iter_mut() {
        *row = inverse_1d(row);
    }
}

fn to_patterns(block: &[[f32; 8]; 8]) -> [[u32; 8]; 8] {
    let mut patterns = [[0u32; 8]; 8];
    for row in 0..8 {
        for column in 0..8 {
            patterns[row][column] = block[row][column].to_bits();
        }
    }
    patterns
}

fn from_patterns(patterns: &[[u32; 8]; 8]) -> [[f32; 8]; 8] {
    let mut block = [[0f32; 8]; 8];
    for row in 0..8 {
        for column in 0..8 {
            block[row][column] = f32::from_bits(patterns[row][column]);
        }
    }
    block
}

fn luminance(pixel: RgbPixel) -> f32 {
    0.299 * pixel.red as f32 + 0.587 * pixel.green as f32 + 0.114 * pixel.blue as f32
}

fn rgb_forward(samples: [[RgbPixel; 8]; 8]) -> [[u32; 8]; 8] {
    let mut block = [[0f32; 8]; 8];
    for row in 0..8 {
        for column in 0..8 {
            block[row][column] = luminance(samples[row][column]);
        }
    }
    forward_2d(&mut block);
    to_patterns(&block)
}

fn rgb_inverse(samples: [[RgbPixel; 8]; 8], coefficients: [[u32; 8]; 8]) -> [[RgbPixel; 8]; 8] {
    let mut block = from_patterns(&coefficients);
    inverse_2d(&mut block);
    let mut restored = samples;
    for row in 0..8 {
        for column in 0..8 {
            let original = samples[row][column];
            let delta = block[row][column].round().clamp(0.0, 255.0) - luminance(original);
            restored[row][column] = RgbPixel {
                red: (original.red as f32 + delta * 0.2).round().clamp(0.0, 255.0) as u8,
                green: (original.green as f32 + delta * 0.6).round().clamp(0.0, 255.0) as u8,
                blue: (original.blue as f32 + delta * 0.2).round().clamp(0.0, 255.0) as u8,
            };
        }
    }
    restored
}

fn gray_forward(samples: [[u8; 8]; 8]) -> [[u32; 8]; 8] {
    let mut block = [[0f32; 8]; 8];
    for row in 0..8 {
        for column in 0..8 {
            block[row][column] = samples[row][column] as f32;
        }
    }
    forward_2d(&mut block);
    to_patterns(&block)
}

fn gray_inverse(_samples: [[u8; 8]; 8], coefficients: [[u32; 8]; 8]) -> [[u8; 8]; 8] {
    let mut block = from_patterns(&coefficients);
    inverse_2d(&mut block);
    let mut restored = [[0u8; 8]; 8];
    for row in 0..8 {
        for column in 0..8 {
            restored[row][column] = block[row][column].round().clamp(0.0, 255.0) as u8;
        }
    }
    restored
}

fn uniform_rgb(width: u32, height: u32, value: u8) -> RgbImage {
    RgbImage::from_raw(width, height, vec![value; (width * height * 3) as usize]).unwrap()
}

fn textured_gray(width: u32, height: u32) -> GrayImage {
    let mut samples = Vec::new();
    for y in 0..height {
        for x in 0..width {
            samples.push((96 + (x * 3 + y * 5) % 64) as u8);
        }
    }
    GrayImage::from_raw(width, height, samples).unwrap()
}

fn patterns_of(values: [[f32; 8]; 8]) -> [[u32; 8]; 8] {
    to_patterns(&values)
}

#[test]
fn test_data_bit_conversion_roundtrip() {
    let stego_engine = SteganographyEngine::new();
    let test_data = b"Hello, World! This is a test message.";
    let bit_stream = stego_engine.convert_data_to_bits_with_header(test_data);
    let recovered_data = stego_engine
        .convert_bits_to_data_with_header(&bit_stream)
        .unwrap();
    assert_eq!(test_data.to_vec(), recovered_data);
}

#[test]
fn test_capacity_calculation() {
    let stego_engine = SteganographyEngine::new();
    let test_image: RgbImage = uniform_rgb(64, 64, 128);
    let capacity = stego_engine.calculate_capacity_bits(&test_image);
    assert_eq!(capacity, 64); // 8x8 blocks = 64 bits capacity
}

#[test]
fn capacity_counts_partial_blocks() {
    let engine = SteganographyEngine::new();
    assert_eq!(engine.calculate_capacity_bits(&uniform_rgb(65, 64, 0)), 72);
    assert_eq!(engine.calculate_capacity_bits(&uniform_rgb(1, 1, 0)), 1);
    assert_eq!(engine.calculate_capacity_bits(&uniform_rgb(0, 10, 0)), 0);
    assert_eq!(engine.calculate_capacity_bits(&uniform_rgb(17, 9, 0)), 6);
    let gray = GrayImage::from_raw(128, 64, vec![0; 128 * 64]).unwrap();
    assert_eq!(engine.calculate_grayscale_capacity_bits(&gray), 128);
    assert_eq!(engine.calculate_capacity(&gray), 128);
}

#[test]
fn capacity_follows_the_block_size() {
    let configuration = EmbeddingConfiguration {
        block_size: 4,
        embedding_positions: vec![(1, 1)],
        embedding_strength: 25,
        minimum_quantization_step: 4,
    };
    assert!(configuration.check());
    let engine = SteganographyEngine::with_configuration(configuration);
    assert_eq!(engine.calculate_capacity_bits(&uniform_rgb(64, 64, 0)), 256);
    assert_eq!(engine.calculate_capacity_bits(&uniform_rgb(9, 5, 0)), 6);
}

#[test]
fn configurations_are_checked() {
    assert!(EmbeddingConfiguration::default().check());
    let mut configuration = EmbeddingConfiguration::default();
    configuration.block_size = 0;
    assert!(!configuration.check());
    configuration.block_size = 9;
    assert!(!configuration.check());
    configuration.block_size = 8;
    configuration.embedding_positions = Vec::new();
    assert!(!configuration.check());
    configuration.embedding_positions = vec![(0, 0), (8, 1)];
    assert!(!configuration.check());
    configuration.embedding_positions = vec![(0, 0), (7, 7)];
    assert!(configuration.check());
}

#[test]
fn default_configuration_has_the_ranked_positions() {
    let configuration = EmbeddingConfiguration::default();
    assert_eq!(configuration.block_size, 8);
    assert_eq!(
        configuration.embedding_positions,
        vec![(4, 1), (1, 4), (3, 2), (2, 3), (5, 0), (0, 5), (3, 4), (4, 3)]
    );
    assert_eq!(configuration.embedding_strength, 25);
    assert_eq!(configuration.minimum_quantization_step, 4);
}

#[test]
fn framing_writes_length_then_bytes_most_significant_bit_first() {
    let engine = SteganographyEngine::new();
    let bits = engine.convert_data_to_bits_with_header(&[0xA5, 0x01]);
    let mut expected = vec![0u8; 32];
    expected[30] = 1;
    expected.extend_from_slice(&[1, 0, 1, 0, 0, 1, 0, 1]);
    expected.extend_from_slice(&[0, 0, 0, 0, 0, 0, 0, 1]);
    assert_eq!(bits, expected);
    assert_eq!(engine.convert_data_to_bits_with_header(&[]), vec![0u8; 32]);
}

#[test]
fn framing_length_is_thirty_two_plus_eight_per_byte() {
    let engine = SteganographyEngine::new();
    for length in [0usize, 1, 2, 17, 300] {
        let bits = engine.convert_data_to_bits_with_header(&vec![0x3C; length]);
        assert_eq!(bits.len(), 32 + 8 * length);
    }
}

#[test]
fn unframing_ignores_trailing_bits() {
    let engine = SteganographyEngine::new();
    let mut bits = engine.convert_data_to_bits_with_header(b"xyz");
    bits.extend_from_slice(&[1, 1, 0, 1, 0, 0, 1, 1, 1]);
    assert_eq!(engine.convert_bits_to_data_with_header(&bits).unwrap(), b"xyz".to_vec());
}

#[test]
fn unframing_rejects_an_incomplete_header() {
    let engine = SteganographyEngine::new();
    match engine.convert_bits_to_data_with_header(&[0u8; 31]) {
        Err(SteganographyError::InvalidInput(message)) => {
            assert_eq!(message, "Not enough bits for length header");
        }
        other => panic!("unexpected result: {:?}", other),
    }
}

#[test]
fn unframing_rejects_an_incomplete_payload() {
    let engine = SteganographyEngine::new();
    let mut bits = engine.convert_data_to_bits_with_header(&[1, 2, 3]);
    bits.truncate(32 + 23);
    match engine.convert_bits_to_data_with_header(&bits) {
        Err(SteganographyError::InvalidInput(message)) => {
            assert_eq!(message, "Not enough data bits. Expected 24, got 23");
        }
        other => panic!("unexpected result: {:?}", other),
    }
}

#[test]
fn embedding_forces_the_first_four_positions() {
    let engine = SteganographyEngine::new();
    let table = engine.calculate_quantization_table(85);
    let mut block = patterns_of([[1.5f32; 8]; 8]);
    engine.embed_bit_robustly(&mut block, 1, &table);
    let values = from_patterns(&block);
    for row in 0..8 {
        for column in 0..8 {
            let forced = [(4, 1), (1, 4), (3, 2), (2, 3)].contains(&(row, column));
            assert_eq!(values[row][column], if forced { 25.0 } else { 1.5 });
        }
    }
    engine.embed_bit_robustly(&mut block, 0, &table);
    let values = from_patterns(&block);
    assert_eq!(values[4][1], -25.0);
    assert_eq!(values[1][4], -25.0);
    assert_eq!(values[3][2], -25.0);
    assert_eq!(values[2][3], -25.0);
    assert_eq!(values[5][0], 1.5);
}

#[test]
fn embedding_strength_is_three_steps_where_that_is_more() {
    let engine = SteganographyEngine::new();
    let table = engine.calculate_quantization_table(10);
    let mut block = [[0u32; 8]; 8];
    engine.embed_bit_robustly(&mut block, 1, &table);
    let values = from_patterns(&block);
    assert_eq!(values[4][1], 330.0);
    assert_eq!(values[1][4], 390.0);
    assert_eq!(values[3][2], 330.0);
    assert_eq!(values[2][3], 360.0);
    let configuration = EmbeddingConfiguration {
        block_size: 8,
        embedding_positions: vec![(0, 0), (7, 7)],
        embedding_strength: 2,
        minimum_quantization_step: 9,
    };
    let engine = SteganographyEngine::with_configuration(configuration);
    let mut block = [[0u32; 8]; 8];
    engine.embed_bit_robustly(&mut block, 7, &[[1u8; 8]; 8]);
    let values = from_patterns(&block);
    assert_eq!(values[0][0], -27.0);
    assert_eq!(values[7][7], -27.0);
    assert_eq!(values[4][1], 0.0);
}

#[test]
fn extraction_takes_the_majority_of_the_votes() {
    let engine = SteganographyEngine::new();
    let mut values = [[0f32; 8]; 8];
    values[4][1] = -30.0;
    values[1][4] = 11.0;
    values[3][2] = 10.5;
    values[2][3] = 3.0;
    assert_eq!(engine.extract_bit_robustly(&patterns_of(values)), 1);
    values[3][2] = -10.5;
    assert_eq!(engine.extract_bit_robustly(&patterns_of(values)), 0);
    values[5][0] = 500.0;
    values[0][5] = 500.0;
    assert_eq!(engine.extract_bit_robustly(&patterns_of(values)), 0);
}

#[test]
fn extraction_falls_back_on_the_sign_of_the_first_position() {
    let engine = SteganographyEngine::new();
    let mut values = [[0f32; 8]; 8];
    assert_eq!(engine.extract_bit_robustly(&patterns_of(values)), 0);
    values[4][1] = 0.001;
    assert_eq!(engine.extract_bit_robustly(&patterns_of(values)), 1);
    values[4][1] = 10.0;
    assert_eq!(engine.extract_bit_robustly(&patterns_of(values)), 1);
    values[4][1] = -10.0;
    assert_eq!(engine.extract_bit_robustly(&patterns_of(values)), 0);
    values[4][1] = 12.0;
    values[1][4] = -12.0;
    assert_eq!(engine.extract_bit_robustly(&patterns_of(values)), 1);
    values[4][1] = -12.0;
    values[1][4] = 12.0;
    assert_eq!(engine.extract_bit_robustly(&patterns_of(values)), 0);
    values[4][1] = f32::NAN;
    values[1][4] = 0.0;
    assert_eq!(engine.extract_bit_robustly(&patterns_of(values)), 0);
}

#[test]
fn extraction_reads_back_what_embedding_forced() {
    let engine = SteganographyEngine::new();
    for quality in [1u8, 10, 50, 85, 100] {
        let table = engine.calculate_quantization_table(quality);
        for bit in [0u8, 1] {
            let mut block = patterns_of([[-3.25f32; 8]; 8]);
            engine.embed_bit_robustly(&mut block, bit, &table);
            assert_eq!(engine.extract_bit_robustly(&block), bit);
        }
    }
}

#[test]
fn forced_coefficients_survive_rounding_to_their_step() {
    let engine = SteganographyEngine::new();
    for quality in 1..=100u8 {
        let table = engine.calculate_quantization_table(quality);
        for bit in [0u8, 1] {
            let mut block = patterns_of([[0.75f32; 8]; 8]);
            engine.embed_bit_robustly(&mut block, bit, &table);
            let mut values = from_patterns(&block);
            for row in 0..8 {
                for column in 0..8 {
                    let step = table[row][column] as f32;
                    values[row][column] = (values[row][column] / step).round() * step;
                }
            }
            for (row, column) in [(4, 1), (1, 4), (3, 2), (2, 3)] {
                assert!(values[row][column].abs() >= 3.0 * table[row][column] as f32);
            }
            assert_eq!(engine.extract_bit_robustly(&patterns_of(values)), bit);
        }
    }
}

#[test]
fn sample_blocks_repeat_the_edge() {
    let engine = SteganographyEngine::new();
    let mut samples = Vec::new();
    for y in 0..10u32 {
        for x in 0..12u32 {
            samples.push((y * 12 + x) as u8);
        }
    }
    let image = GrayImage::from_raw(12, 10, samples).unwrap();
    let block = engine.extract_sample_block(&image, 8, 8);
    for row in 0..8usize {
        for column in 0..8usize {
            let x = (8 + column).min(11);
            let y = (8 + row).min(9);
            assert_eq!(block[row][column] as usize, y * 12 + x);
        }
    }
    let inner = engine.extract_sample_block(&image, 0, 0);
    assert_eq!(inner[7][7], 7 * 12 + 7);
}

#[test]
fn sample_blocks_are_blank_beyond_the_block_size() {
    let configuration = EmbeddingConfiguration {
        block_size: 2,
        embedding_positions: vec![(0, 1)],
        embedding_strength: 25,
        minimum_quantization_step: 4,
    };
    let engine = SteganographyEngine::with_configuration(configuration);
    let image = uniform_rgb(4, 4, 200);
    let block = engine.extract_sample_block(&image, 2, 2);
    for row in 0..8 {
        for column in 0..8 {
            let expected = if row < 2 && column < 2 { 200 } else { 0 };
            assert_eq!(block[row][column], RgbPixel { red: expected, green: expected, blue: expected });
        }
    }
}

#[test]
fn written_blocks_stay_inside_the_image() {
    let engine = SteganographyEngine::new();
    let mut image = GrayImage::from_raw(12, 10, vec![1u8; 120]).unwrap();
    engine.write_sample_block(&mut image, 8, 8, &[[9u8; 8]; 8]);
    for y in 0..10 {
        for x in 0..12 {
            let expected = if x >= 8 && y >= 8 { 9 } else { 1 };
            assert_eq!(image.get_pixel(x, y), expected);
        }
    }
    assert_eq!(image.width(), 12);
    assert_eq!(image.height(), 10);
}

#[test]
fn pixels_can_be_read_and_written() {
    let mut image = RgbImage::from_raw(3, 2, (0u8..18).collect()).unwrap();
    assert_eq!(image.get_pixel(2, 1), RgbPixel { red: 15, green: 16, blue: 17 });
    assert_eq!(image.get_pixel(1, 0), RgbPixel { red: 3, green: 4, blue: 5 });
    image.put_pixel(1, 0, RgbPixel { red: 100, green: 101, blue: 102 });
    let copy = image.duplicate();
    assert_eq!(copy.get_pixel(1, 0), RgbPixel { red: 100, green: 101, blue: 102 });
    assert_eq!(copy.get_pixel(0, 0), RgbPixel { red: 0, green: 1, blue: 2 });
    let raw = image.into_raw();
    assert_eq!(raw, vec![0, 1, 2, 100, 101, 102, 6, 7, 8, 9, 10, 11, 12, 13, 14, 15, 16, 17]);
    assert_eq!(RgbImage::blank(), RgbPixel { red: 0, green: 0, blue: 0 });
    assert_eq!(GrayImage::blank(), 0);
}

#[test]
fn images_keep_samples_beyond_their_pixels() {
    let image = RgbImage::from_raw(1, 1, vec![1, 2, 3, 4, 5]).unwrap();
    assert_eq!(image.width(), 1);
    assert_eq!(image.height(), 1);
    assert_eq!(image.get_pixel(0, 0), RgbPixel { red: 1, green: 2, blue: 3 });
    assert_eq!(image.into_raw(), vec![1, 2, 3, 4, 5]);
    let empty = GrayImage::from_raw(0, 0, Vec::new()).unwrap();
    assert_eq!(empty.width(), 0);
    assert_eq!(empty.duplicate().height(), 0);
}

#[test]
fn images_need_enough_samples() {
    assert!(RgbImage::from_raw(2, 2, vec![0; 11]).is_none());
    assert!(RgbImage::from_raw(2, 2, vec![0; 12]).is_some());
    assert!(GrayImage::from_raw(2, 2, vec![0; 3]).is_none());
    let gray = GrayImage::from_raw(2, 2, vec![5, 6, 7, 8]).unwrap();
    assert_eq!(gray.get_pixel(1, 1), 8);
    assert_eq!(gray.into_raw(), vec![5, 6, 7, 8]);
}

#[test]
fn hiding_fails_when_the_payload_exceeds_the_capacity() {
    let engine = SteganographyEngine::new();
    let image = uniform_rgb(64, 64, 128);
    let result = engine.hide_data_in_rgb_image(&image, &[0u8; 5], 85, rgb_forward, rgb_inverse);
    match result {
        Err(SteganographyError::CapacityError { required, available }) => {
            assert_eq!(required, 72);
            assert_eq!(available, 64);
        }
        _ => panic!("expected a capacity error"),
    }
    let gray = GrayImage::from_raw(8, 8, vec![0; 64]).unwrap();
    let result = engine.hide_data_in_grayscale_image(&gray, &[], 85, gray_forward, gray_inverse);
    match result {
        Err(SteganographyError::CapacityError { required, available }) => {
            assert_eq!(required, 32);
            assert_eq!(available, 1);
        }
        _ => panic!("expected a capacity error"),
    }
}

#[test]
fn hiding_fills_exactly_the_capacity() {
    let engine = SteganographyEngine::new();
    let image = textured_gray(64, 64);
    let payload = [0xC3u8, 0x5A, 0x0F, 0xF0];
    let hidden = engine
        .hide_data_in_grayscale_image(&image, &payload, 85, gray_forward, gray_inverse)
        .ok()
        .unwrap();
    let recovered = engine
        .extract_data_from_grayscale_image(&hidden, None, gray_forward)
        .unwrap();
    assert_eq!(recovered, payload.to_vec());
}

#[test]
fn hiding_leaves_blocks_behind_the_payload_untouched() {
    let engine = SteganographyEngine::new();
    let image = textured_gray(128, 64);
    let hidden = engine
        .hide_data_in_grayscale_image(&image, &[0x77], 85, gray_forward, gray_inverse)
        .ok()
        .unwrap();
    assert_eq!(hidden.width(), 128);
    assert_eq!(hidden.height(), 64);
    let mut changed = 0;
    for y in 0..64 {
        for x in 0..128 {
            let block = (y / 8) * 16 + x / 8;
            if block >= 40 {
                assert_eq!(hidden.get_pixel(x, y), image.get_pixel(x, y));
            } else if hidden.get_pixel(x, y) != image.get_pixel(x, y) {
                changed += 1;
            }
        }
    }
    assert!(changed > 0);
}

#[test]
fn hidden_payload_is_recovered_from_a_gray_image() {
    let engine = SteganographyEngine::new();
    let image = textured_gray(256, 128);
    let payload = b"A payload that crosses several rows of blocks.".to_vec();
    let hidden = engine
        .hide_data_in_grayscale_image(&image, &payload, 85, gray_forward, gray_inverse)
        .ok()
        .unwrap();
    assert_eq!(
        engine.extract_data_from_grayscale_image(&hidden, None, gray_forward).unwrap(),
        payload
    );
    assert_eq!(
        engine
            .extract_data_from_grayscale_image(&hidden, Some(payload.len()), gray_forward)
            .unwrap(),
        payload
    );
    assert_eq!(
        engine.extract_data_from_grayscale_image(&hidden, Some(4096), gray_forward).unwrap(),
        payload
    );
}

#[test]
fn hidden_payload_is_recovered_from_a_colour_image() {
    let engine = SteganographyEngine::new();
    let image = uniform_rgb(160, 120, 128);
    let payload = b"colour carries it too".to_vec();
    let hidden = engine
        .hide_data_in_rgb_image(&image, &payload, 85, rgb_forward, rgb_inverse)
        .ok()
        .unwrap();
    assert_eq!(engine.extract_data_from_rgb_image(&hidden, None, rgb_forward).unwrap(), payload);
}

#[test]
fn hidden_payload_survives_rounding_to_quantisation_steps() {
    let engine = SteganographyEngine::new();
    let image = textured_gray(256, 128);
    let payload = b"robust against coefficient rounding".to_vec();
    let hidden = engine
        .hide_data_in_grayscale_image(&image, &payload, 85, gray_forward, gray_inverse)
        .ok()
        .unwrap();
    let table = engine.calculate_quantization_table(85);
    let quantizing_forward = |samples: [[u8; 8]; 8]| {
        let mut block = from_patterns(&gray_forward(samples));
        for row in 0..8 {
            for column in 0..8 {
                let step = table[row][column] as f32;
                block[row][column] = (block[row][column] / step).round() * step;
            }
        }
        to_patterns(&block)
    };
    assert_eq!(
        engine.extract_data_from_grayscale_image(&hidden, None, quantizing_forward).unwrap(),
        payload
    );
}

#[test]
fn hidden_payload_is_recovered_from_an_image_with_partial_blocks() {
    let engine = SteganographyEngine::new();
    let image = textured_gray(100, 45);
    assert_eq!(engine.calculate_grayscale_capacity_bits(&image), 78);
    let payload = vec![0x9E, 0x21, 0x00, 0xFF, 0x5C];
    let hidden = engine
        .hide_data_in_grayscale_image(&image, &payload, 85, gray_forward, gray_inverse)
        .ok()
        .unwrap();
    assert_eq!(
        engine.extract_data_from_grayscale_image(&hidden, None, gray_forward).unwrap(),
        payload
    );
}

#[test]
fn extraction_with_too_short_an_expected_length_fails() {
    let engine = SteganographyEngine::new();
    let image = textured_gray(256, 128);
    let payload = vec![0xAB; 10];
    let hidden = engine
        .hide_data_in_grayscale_image(&image, &payload, 85, gray_forward, gray_inverse)
        .ok()
        .unwrap();
    match engine.extract_data_from_grayscale_image(&hidden, Some(3), gray_forward) {
        Err(SteganographyError::InvalidInput(message)) => {
            assert_eq!(message, "Not enough data bits. Expected 80, got 24");
        }
        other => panic!("unexpected result: {:?}", other),
    }
}

#[test]
fn extraction_from_an_image_without_a_full_header_fails() {
    let engine = SteganographyEngine::new();
    let image = uniform_rgb(24, 8, 100);
    match engine.extract_data_from_rgb_image(&image, None, rgb_forward) {
        Err(SteganographyError::InvalidInput(message)) => {
            assert_eq!(message, "Not enough bits for length header");
        }
        other => panic!("unexpected result: {:?}", other),
    }
}

#[test]
fn extraction_stops_as_soon_as_enough_bits_are_collected() {
    let engine = SteganographyEngine::new();
    let mut bits = engine.convert_data_to_bits_with_header(&[1, 2]);
    assert!(engine.is_extraction_complete(&bits, None, 1024));
    assert!(engine.is_extraction_complete(&bits, Some(2), 1024));
    assert!(!engine.is_extraction_complete(&bits, Some(3), 1024));
    assert!(!engine.is_extraction_complete(&bits, None, 23));
    bits.pop();
    assert!(!engine.is_extraction_complete(&bits, None, 1024));
    assert!(!engine.is_extraction_complete(&bits, Some(2), 1024));
    let empty = engine.convert_data_to_bits_with_header(&[]);
    assert!(!engine.is_extraction_complete(&empty, None, 1024));
    assert!(engine.is_extraction_complete(&empty, Some(0), 1024));
}

#[test]
fn jpeg_streams_are_framed_by_their_markers() {
    let engine = SteganographyEngine::new();
    let image = uniform_rgb(16, 16, 90);
    let bytes = engine.encode_rgb_image_as_jpeg(&image, 85).unwrap();
    assert_eq!(&bytes[..2], &[0xFF, 0xD8]);
    assert_eq!(&bytes[bytes.len() - 2..], &[0xFF, 0xD9]);
    let gray = textured_gray(16, 8);
    let bytes = engine.encode_grayscale_image_as_jpeg(&gray, 50).unwrap();
    assert_eq!(&bytes[..2], &[0xFF, 0xD8]);
    assert_eq!(&bytes[bytes.len() - 2..], &[0xFF, 0xD9]);
}

#[test]
fn jpeg_streams_of_equal_images_are_equal() {
    let engine = SteganographyEngine::new();
    let gray = GrayImage::from_raw(8, 8, vec![77; 64]).unwrap();
    let colour = uniform_rgb(8, 8, 77);
    assert_eq!(
        engine.encode_grayscale_image_as_jpeg(&gray, 70).unwrap(),
        engine.encode_rgb_image_as_jpeg(&colour, 70).unwrap()
    );
    assert_ne!(
        engine.encode_rgb_image_as_jpeg(&colour, 70).unwrap(),
        engine.encode_rgb_image_as_jpeg(&colour, 20).unwrap()
    );
}

#[test]
fn jpeg_encoding_accepts_images_of_any_shape() {
    let engine = SteganographyEngine::new();
    for (width, height) in [(1u32, 1u32), (3, 5), (17, 2), (8, 33)] {
        let image = uniform_rgb(width, height, 200);
        for quality in [0u8, 1, 50, 89, 90, 100, 255] {
            let bytes = engine.encode_rgb_image_as_jpeg(&image, quality).unwrap();
            assert_eq!(&bytes[..2], &[0xFF, 0xD8]);
        }
    }
}

#[test]
fn jpeg_encoding_cuts_sizes_to_sixteen_bits() {
    let engine = SteganographyEngine::new();
    let wide = GrayImage::from_raw(65552, 1, vec![60; 65552]).unwrap();
    let narrow = GrayImage::from_raw(16, 1, vec![60; 16]).unwrap();
    assert_eq!(
        engine.encode_grayscale_image_as_jpeg(&wide, 80).unwrap(),
        engine.encode_grayscale_image_as_jpeg(&narrow, 80).unwrap()
    );
    let cut_to_nothing = GrayImage::from_raw(65536, 1, vec![60; 65536]).unwrap();
    assert!(matches!(
        engine.encode_grayscale_image_as_jpeg(&cut_to_nothing, 80),
        Err(SteganographyError::ImageError(_))
    ));
}

#[test]
fn jpeg_encoding_refuses_an_image_without_pixels() {
    let engine = SteganographyEngine::new();
    let image = uniform_rgb(0, 4, 0);
    assert!(matches!(
        engine.encode_rgb_image_as_jpeg(&image, 85),
        Err(SteganographyError::ImageError(_))
    ));
}
