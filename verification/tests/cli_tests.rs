use steg::cli::{ends_with, CommandLineHandler, OutputFormat, SteganographyCommand};
use steg::error::SteganographyError;
use steg::raster::{PixelGrid, RgbPixel};

#[test]
fn qualities_from_one_to_one_hundred_are_accepted() {
    let handler = CommandLineHandler::new();
    assert!(handler.validate_quality(1).is_ok());
    assert!(handler.validate_quality(85).is_ok());
    assert!(handler.validate_quality(100).is_ok());
    for quality in [0u8, 101, 255] {
        match handler.validate_quality(quality) {
            Err(SteganographyError::InvalidInput(message)) => {
                assert_eq!(message, "JPEG quality must be between 1 and 100");
            }
            other => panic!("unexpected result: {:?}", other),
        }
    }
}

#[test]
fn commands_are_accepted_unless_they_hide_at_an_impossible_quality() {
    let handler = CommandLineHandler::new();
    let hide = |quality: u8| SteganographyCommand::Hide {
        input: String::from("in.png"),
        output: String::from("out"),
        data: String::from("secret"),
        key_file: None,
        quality,
    };
    assert!(handler.validate_command(&hide(85)).is_ok());
    assert!(handler.validate_command(&hide(1)).is_ok());
    assert!(matches!(
        handler.validate_command(&hide(0)),
        Err(SteganographyError::InvalidInput(_))
    ));
    assert!(matches!(
        handler.validate_command(&hide(101)),
        Err(SteganographyError::InvalidInput(_))
    ));
    assert!(handler.validate_command(&SteganographyCommand::Demo).is_ok());
    let extract = SteganographyCommand::Extract {
        input: String::from("in.jpg"),
        key: String::from("key"),
        length: Some(4),
    };
    assert!(handler.validate_command(&extract).is_ok());
}

#[test]
fn output_paths_get_an_extension_unless_they_name_a_jpeg() {
    let handler = CommandLineHandler::new();
    assert_eq!(handler.get_output_file_path("out", 85), "out.jpg");
    assert_eq!(handler.get_output_file_path("out", 100), "out.png");
    assert_eq!(handler.get_output_file_path("out.jpg", 100), "out.jpg");
    assert_eq!(handler.get_output_file_path("out.jpeg", 40), "out.jpeg");
    assert_eq!(handler.get_output_file_path("out.png", 40), "out.png.jpg");
    assert_eq!(handler.get_output_file_path("", 1), ".jpg");
    assert_eq!(handler.get_output_file_path("bild\u{e4}.jpg", 1), "bild\u{e4}.jpg");
}

#[test]
fn png_is_written_only_at_full_quality() {
    let handler = CommandLineHandler::new();
    assert_eq!(handler.output_format("out.png", 100), OutputFormat::Png);
    assert_eq!(handler.output_format("out.png", 99), OutputFormat::Jpeg);
    assert_eq!(handler.output_format("out.jpg", 100), OutputFormat::Jpeg);
}

#[test]
fn key_files_are_named_after_the_output() {
    let handler = CommandLineHandler::new();
    assert_eq!(handler.default_key_path("pictures/out"), "pictures/out.key");
}

#[test]
fn suffixes_are_compared_character_by_character() {
    assert!(ends_with("a.jpg", ".jpg"));
    assert!(ends_with(".jpg", ".jpg"));
    assert!(!ends_with("jpg", ".jpg"));
    assert!(!ends_with("a.jpgx", ".jpg"));
    assert!(ends_with("anything", ""));
    assert!(ends_with("gr\u{fc}\u{df}e.jpeg", ".jpeg"));
}

#[test]
fn demonstration_image_is_a_gradient() {
    let handler = CommandLineHandler::new();
    let image = handler.create_demonstration_image();
    assert_eq!(image.width(), 512);
    assert_eq!(image.height(), 512);
    assert_eq!(image.get_pixel(0, 0), RgbPixel { red: 0, green: 0, blue: 0 });
    assert_eq!(image.get_pixel(511, 0), RgbPixel { red: 254, green: 0, blue: 127 });
    assert_eq!(image.get_pixel(0, 511), RgbPixel { red: 0, green: 254, blue: 127 });
    assert_eq!(image.get_pixel(511, 511), RgbPixel { red: 254, green: 254, blue: 254 });
    assert_eq!(image.get_pixel(256, 128), RgbPixel { red: 127, green: 63, blue: 95 });
}
