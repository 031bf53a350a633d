use ee_tools::convert::rgb332_to_rgb;
use ee_tools::convert::rgb565_to_rgb;
use ee_tools::convert::rgb888_to_rgb;
use ee_tools::convert::BinFileFormat;
use ee_tools::convert::ColorFormat;
use ee_tools::convert::FileFormat;
use ee_tools::convert::ImageConverter;
use ee_tools::numbers::parse_unsigned;
use ee_tools::pixels::image_data;
use ee_tools::pixels::pixels_from_text;

fn lines(v: &[&str]) -> Vec<String> {
    v.iter().map(|s| s.to_string()).collect()
}

#[test]
fn test_convertor() {
    let from = "examples/img1.txt".to_string();
    let to = "examples/img1.png".to_string();
    let width = String::from("320");
    let height = String::from("385");

    let mut converter = ImageConverter::new(from, to, true);
    let format = BinFileFormat::new("rgb565".to_string()).unwrap();

    converter.set_width_and_height(width, height);
    converter.set_bin_file_format(format);
    assert_eq!(converter.resolve_formats(), Ok(()));
    assert_eq!(converter.from_format(), FileFormat::TextFile);
    assert_eq!(converter.to_format(), FileFormat::StandardBinaryFile);
    assert_eq!(converter.width(), "320");
    assert_eq!(converter.height(), "385");
    assert_eq!(converter.bin_file_format(), format);
}

#[test]
fn format_names() {
    let f = BinFileFormat::new("rgb332".to_string()).unwrap();
    assert_eq!((f.bytes_per_sample(), f.rgb_type(), f.is_small_endian()), (1, ColorFormat::Rgb332, true));
    let f = BinFileFormat::new("rgb565".to_string()).unwrap();
    assert_eq!((f.bytes_per_sample(), f.rgb_type(), f.is_small_endian()), (2, ColorFormat::Rgb565, true));
    let f = BinFileFormat::new("rgb565-swap".to_string()).unwrap();
    assert_eq!((f.bytes_per_sample(), f.rgb_type(), f.is_small_endian()), (2, ColorFormat::Rgb565, false));
    let f = BinFileFormat::new("rgb888".to_string()).unwrap();
    assert_eq!((f.bytes_per_sample(), f.rgb_type(), f.is_small_endian()), (4, ColorFormat::Rgb888, true));
    assert_eq!(BinFileFormat::new("argb332".to_string()), Err("Unsupported rgb type".to_string()));
    let d = BinFileFormat::default();
    assert_eq!((d.bytes_per_sample(), d.rgb_type(), d.is_small_endian()), (0, ColorFormat::Rgb332, false));
}

#[test]
fn file_formats() {
    let c = ImageConverter::new(String::new(), String::new(), false);
    assert_eq!(c.get_file_format("a.txt", false), FileFormat::TextFile);
    assert_eq!(c.get_file_format("a.b.bin", false), FileFormat::RawBinaryFile);
    assert_eq!(c.get_file_format("raw", false), FileFormat::RawBinaryFile);
    assert_eq!(c.get_file_format("x.png", false), FileFormat::StandardBinaryFile);
    assert_eq!(c.get_file_format("x.bmp", false), FileFormat::StandardBinaryFile);
    assert_eq!(c.get_file_format("x.jpg", false), FileFormat::StandardBinaryFile);
    assert_eq!(c.get_file_format("x.gif", false), FileFormat::Undefined);
    assert_eq!(c.get_file_format("x.gif", true), FileFormat::CustomBinaryFile);
    assert_eq!(c.get_file_format("x.", false), FileFormat::Undefined);
}

#[test]
fn undefined_formats_are_refused() {
    let mut c = ImageConverter::new("a.gif".to_string(), "b.png".to_string(), false);
    assert_eq!(
        c.resolve_formats(),
        Err("from_format and to_format should not be undefined".to_string())
    );
    assert_eq!(c.from_format(), FileFormat::Undefined);
    let mut c = ImageConverter::new("a.gif".to_string(), "b.png".to_string(), true);
    assert_eq!(c.resolve_formats(), Ok(()));
    assert_eq!(c.from_format(), FileFormat::CustomBinaryFile);
}

#[test]
fn rgb332_values() {
    assert_eq!(rgb332_to_rgb(0xff), [0xe0, 0xe0, 0xc0]);
    assert_eq!(rgb332_to_rgb(0x25), [0x20, 0x20, 0x40]);
    assert_eq!(rgb332_to_rgb(0x1ff), [0xe0, 0xe0, 0xc0]);
    assert_eq!(rgb332_to_rgb(0), [0, 0, 0]);
}

#[test]
fn rgb565_values() {
    assert_eq!(rgb565_to_rgb(0xffff), [255, 255, 255]);
    assert_eq!(rgb565_to_rgb(0), [0, 0, 0]);
    assert_eq!(rgb565_to_rgb(0xf800), [255, 0, 0]);
    assert_eq!(rgb565_to_rgb(0x8410), [132, 130, 132]);
    assert_eq!(rgb565_to_rgb(0x1_0001), [0, 0, 8]);
}

#[test]
fn rgb565_matches_rounded_scaling() {
    for v in 0u32..32 {
        let expect = (v as f32 * 255.0 / 31.0 + 0.5) as u8;
        assert_eq!(rgb565_to_rgb(v << 11)[0], expect);
        assert_eq!(rgb565_to_rgb(v)[2], expect);
    }
    for v in 0u32..64 {
        let expect = (v as f32 * 255.0 / 63.0 + 0.5) as u8;
        assert_eq!(rgb565_to_rgb(v << 5)[1], expect);
    }
}

#[test]
fn rgb888_values() {
    assert_eq!(rgb888_to_rgb(0x12345678), [0x34, 0x56, 0x78]);
    assert_eq!(rgb888_to_rgb(0xff0000), [0xff, 0, 0]);
}

#[test]
fn text_pixels() {
    let text = lines(&["12 34 56 78", "", "ab cd ef  "]);
    let le = BinFileFormat::new("rgb565".to_string()).unwrap();
    assert_eq!(pixels_from_text(&text, &le), Some(vec![0x3412, 0x7856, 0xcdab]));
    let be = BinFileFormat::new("rgb565-swap".to_string()).unwrap();
    assert_eq!(pixels_from_text(&text, &be), Some(vec![0x1234, 0x5678, 0xabcd]));
    let wide = BinFileFormat::new("rgb888".to_string()).unwrap();
    assert_eq!(pixels_from_text(&lines(&["01 02 03 04"]), &wide), Some(vec![0x04030201]));
    let one = BinFileFormat::new("rgb332".to_string()).unwrap();
    assert_eq!(pixels_from_text(&lines(&["+f FF 0"]), &one), Some(vec![0x0f, 0xff, 0]));
    assert_eq!(pixels_from_text(&lines(&["12 zz"]), &one), None);
    assert_eq!(pixels_from_text(&lines(&["100"]), &one), None);
    assert_eq!(pixels_from_text(&lines(&["12  34"]), &one), None);
}

#[test]
fn image_buffers() {
    assert_eq!(
        image_data(2, 2, ColorFormat::Rgb888, &vec![0x010203]),
        Some(vec![1, 2, 3, 0, 0, 0, 0, 0, 0, 0, 0, 0])
    );
    assert_eq!(image_data(1, 1, ColorFormat::Rgb888, &vec![1, 2]), None);
    assert_eq!(image_data(0, 5, ColorFormat::Rgb332, &vec![]), Some(vec![]));
    assert_eq!(image_data(1, 1, ColorFormat::Rgb332, &vec![0xff]), Some(vec![0xe0, 0xe0, 0xc0]));
}

#[test]
fn number_parsing() {
    assert_eq!(parse_unsigned("385", 10, u32::MAX), Some(385));
    assert_eq!(parse_unsigned("+7", 10, u32::MAX), Some(7));
    assert_eq!(parse_unsigned("", 10, u32::MAX), None);
    assert_eq!(parse_unsigned("+", 10, u32::MAX), None);
    assert_eq!(parse_unsigned("4294967295", 10, u32::MAX), Some(u32::MAX));
    assert_eq!(parse_unsigned("4294967296", 10, u32::MAX), None);
    assert_eq!(parse_unsigned("12a", 10, u32::MAX), None);
    assert_eq!(parse_unsigned("fF", 16, 255), Some(255));
    assert_eq!(parse_unsigned("-1", 10, u32::MAX), None);
}
