use pyramus::PyramusError;
use pyramus::builder::PropItemTypeBuilder;
use pyramus::item::{PropItemImage, PropItemImageData, PropItemText};

fn tiny_png() -> Vec<u8> {
    let img = image::RgbaImage::from_pixel(3, 2, image::Rgba([10, 20, 30, 255]));
    let mut out: Vec<u8> = Vec::new();
    img.write_to(&mut std::io::Cursor::new(&mut out), image::ImageFormat::Png)
        .unwrap();
    out
}

#[test]
fn image_from_bytes_measures_and_normalises() {
    let png = tiny_png();
    let im = PropItemImage::from_bytes(png, "png").unwrap();
    assert_eq!(im.viewport_width, 3);
    assert_eq!(im.viewport_height, 2);
    match im.data {
        PropItemImageData::Png(bytes) => {
            let reparsed = image::load_from_memory(&bytes).unwrap();
            assert_eq!(reparsed.width(), 3);
            assert_eq!(reparsed.height(), 2);
        }
        _ => panic!("png upload keeps the png tag"),
    }
}

#[test]
fn image_from_bytes_rejects_unknown_extension() {
    assert_eq!(
        PropItemImage::from_bytes(tiny_png(), "bmp").unwrap_err(),
        PyramusError::UnsupportedImageFormat
    );
}

#[test]
fn image_from_bytes_rejects_undecodable_bytes() {
    assert_eq!(
        PropItemImage::from_bytes(vec![1, 2, 3, 4], "png").unwrap_err(),
        PyramusError::ImageDecodeError
    );
}

#[test]
fn image_from_svg_string_measures_the_viewport() {
    let im = PropItemImage::from_svg_string(
        "<svg width=\"120\" height=\"40\" xmlns=\"http://www.w3.org/2000/svg\"></svg>",
    )
    .unwrap();
    assert_eq!(im.viewport_width, 120);
    assert_eq!(im.viewport_height, 40);
    match im.data {
        PropItemImageData::Svg(text) => assert!(text.contains("width=\"120\"")),
        _ => panic!("svg text is kept as text"),
    }
}

#[test]
fn image_from_svg_string_rejects_bad_documents() {
    assert_eq!(
        PropItemImage::from_svg_string("this is not svg").unwrap_err(),
        PyramusError::SvgParseError
    );
}

#[test]
fn basic_text_leaf_defaults() {
    let t = PropItemText::build("hello".to_string());
    assert_eq!(t.text, "hello");
    assert_eq!(t.font_family, "Arial");
    assert_eq!(t.font_size, 12);
    assert_eq!(t.color, (255, 255, 255));
    assert!(!t.italic);
}

#[test]
fn zero_font_size_is_rejected_at_build() {
    let r = PropItemTypeBuilder::Text {
        text: "x".to_string(),
        font_family: "Arial".to_string(),
        font_size: 0,
        color: (0, 0, 0),
        italic: false,
    }
    .build();
    assert_eq!(r.unwrap_err(), PyramusError::InvalidFontSize);
}
