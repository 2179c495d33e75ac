use vstd::prelude::*;
use vstd::string::*;

use crate::PyramusError;
use crate::numfmt::{dec_str, milli_str, fmt_u64_into, fmt_milli};

verus! {

/// A text leaf: its content, font, size, fill color and style. The font
/// size is whole points and must be positive.
#[derive(Debug)]
pub struct PropItemText {
    pub text: String,
    pub font_family: String,
    pub font_size: u32,
    pub color: (u8, u8, u8),
    pub italic: bool,
}

impl PropItemText {
    /// A basic white 12-point upright Arial text leaf.
    pub fn build(text: String) -> (r: PropItemText)
        ensures
            r.text@ == text@,
            r.font_family@ == "Arial"@,
            r.font_size == 12,
            r.color == (255u8, 255u8, 255u8),
            !r.italic,
    {
        PropItemText {
            text,
            font_family: String::from_str("Arial"),
            font_size: 12,
            color: (255, 255, 255),
            italic: false,
        }
    }
}

/// The payload of an image leaf: encoded raster bytes under their format
/// tag, or the text of an SVG document.
#[derive(Debug)]
pub enum PropItemImageData {
    Png(Vec<u8>),
    Jpeg(Vec<u8>),
    Gif(Vec<u8>),
    Svg(String),
}

/// An image leaf: a payload and the intrinsic viewport size in pixels.
#[derive(Debug)]
pub struct PropItemImage {
    pub data: PropItemImageData,
    pub viewport_width: u32,
    pub viewport_height: u32,
}

/// A leaf payload: text or image.
#[derive(Debug)]
pub enum PropItemType {
    Image(PropItemImage),
    Text(PropItemText),
}

impl PropItemType {
    /// Whether the payload is valid: text must have a positive font size.
    pub open spec fn valid(&self) -> bool {
        match self {
            PropItemType::Text(t) => t.font_size > 0,
            PropItemType::Image(_) => true,
        }
    }

    /// The local bounds of the leaf: an image spans its viewport; a text
    /// leaf reports empty bounds, a known deficiency that breaks hit-testing
    /// on text-only nodes.
    pub open spec fn spec_local_bounds(&self) -> (int, int, int, int) {
        match self {
            PropItemType::Text(_) => (0, 0, 0, 0),
            PropItemType::Image(im) => (0, 0, im.viewport_width as int, im.viewport_height as int),
        }
    }

    /// The local bounds of the leaf as pixel coordinates.
    pub fn get_local_bounds(&self) -> (r: (i64, i64, i64, i64))
        ensures
            (r.0 as int, r.1 as int, r.2 as int, r.3 as int) == self.spec_local_bounds(),
            r.0 == 0 && r.1 == 0,
            0 <= r.2 <= u32::MAX,
            0 <= r.3 <= u32::MAX,
    {
        match self {
            PropItemType::Text(_) => (0, 0, 0, 0),
            PropItemType::Image(im) => (0, 0, im.viewport_width as i64, im.viewport_height as i64),
        }
    }
}

/// What decoding raster bytes yields: the pixel width and height and the
/// bytes re-encoded as a canonical PNG, or nothing when the bytes cannot be
/// decoded. The result depends on the bytes alone.
pub uninterp spec fn decoded_image(bytes: Seq<u8>) -> Option<(int, int, Seq<u8>)>;

/// Relies on the image crate: ImageReader with a guessed format decodes the
/// bytes; width and height are the decoded pixel size; write_to re-encodes
/// the pixels as PNG.
#[verifier::external_body]
fn decode_and_reencode(bytes: &Vec<u8>) -> (r: Option<(u32, u32, Vec<u8>)>)
    ensures
        match r {
            Some(t) => decoded_image(bytes@) == Some((t.0 as int, t.1 as int, t.2@)),
            None => decoded_image(bytes@) is None,
        },
{
    let reader = image::ImageReader::new(std::io::Cursor::new(bytes)).with_guessed_format().ok()?;
    let img = reader.decode().ok()?;
    let (w, h) = (img.width(), img.height());
    let mut out: Vec<u8> = Vec::new();
    img.write_to(&mut std::io::Cursor::new(&mut out), image::ImageFormat::Png).ok()?;
    Some((w, h, out))
}

/// What parsing an SVG document yields: the intrinsic size of the document
/// in whole pixels, or nothing when it cannot be parsed. The result depends
/// on the text alone.
pub uninterp spec fn svg_size(text: Seq<char>) -> Option<(int, int)>;

/// Relies on usvg::Tree::from_str with default options: parses the SVG
/// document; Tree::size is its intrinsic size, rounded down to whole pixels
/// here.
#[verifier::external_body]
fn parse_svg_size(text: &str) -> (r: Option<(u32, u32)>)
    ensures
        match r {
            Some(t) => svg_size(text@) == Some((t.0 as int, t.1 as int)),
            None => svg_size(text@) is None,
        },
{
    let tree = usvg::Tree::from_str(text, &usvg::Options::default()).ok()?;
    let size = tree.size();
    Some((size.width() as u32, size.height() as u32))
}

/// Whether an extension tag names a supported raster format.
pub open spec fn known_raster_ext(ext: Seq<char>) -> bool {
    ext == "png"@ || ext == "jpg"@ || ext == "jpeg"@ || ext == "gif"@ || ext == "svg"@
}

impl PropItemImage {
    /// Builds an image leaf from uploaded encoded bytes. The bytes are
    /// decoded to measure the intrinsic size and re-encoded as a canonical
    /// PNG; the extension tag picks the stored format tag. Unknown
    /// extensions are rejected as unsupported; undecodable bytes as a
    /// decode error. Bytes uploaded under the svg tag are rejected as a
    /// decode error, since raster decoding cannot read them.
    pub fn from_bytes(bytes: Vec<u8>, ext: &str) -> (r: Result<PropItemImage, PyramusError>)
        ensures
            match r {
                Ok(im) => {
                    &&& known_raster_ext(ext@)
                    &&& decoded_image(bytes@) matches Some((w, h, png)) && im.viewport_width as int
                        == w && im.viewport_height as int == h && match im.data {
                        PropItemImageData::Png(b) => ext@ == "png"@ && b@ == png,
                        PropItemImageData::Jpeg(b) => (ext@ == "jpg"@ || ext@ == "jpeg"@) && b@
                            == png,
                        PropItemImageData::Gif(b) => ext@ == "gif"@ && b@ == png,
                        PropItemImageData::Svg(_) => false,
                    }
                },
                Err(PyramusError::UnsupportedImageFormat) => !known_raster_ext(ext@),
                Err(PyramusError::ImageDecodeError) => known_raster_ext(ext@) && (decoded_image(
                    bytes@,
                ) is None || ext@ == "svg"@),
                Err(_) => false,
            },
    {
        let is_png = str_eq(ext, "png");
        let is_jpg = str_eq(ext, "jpg");
        let is_jpeg = str_eq(ext, "jpeg");
        let is_gif = str_eq(ext, "gif");
        let is_svg = str_eq(ext, "svg");
        if !(is_png || is_jpg || is_jpeg || is_gif || is_svg) {
            return Err(PyramusError::UnsupportedImageFormat);
        }
        match decode_and_reencode(&bytes) {
            None => Err(PyramusError::ImageDecodeError),
            Some((w, h, png)) => {
                let data = if is_png {
                    PropItemImageData::Png(png)
                } else if is_jpg || is_jpeg {
                    PropItemImageData::Jpeg(png)
                } else if is_gif {
                    PropItemImageData::Gif(png)
                } else {
                    return Err(PyramusError::ImageDecodeError);
                };
                Ok(PropItemImage { data, viewport_width: w, viewport_height: h })
            },
        }
    }

    /// Builds an image leaf from the text of an SVG document, which is
    /// parsed once to find its intrinsic size and kept as text.
    pub fn from_svg_string(svg: &str) -> (r: Result<PropItemImage, PyramusError>)
        ensures
            match r {
                Ok(im) => {
                    &&& svg_size(svg@) matches Some((w, h)) && im.viewport_width as int == w
                        && im.viewport_height as int == h
                    &&& im.data matches PropItemImageData::Svg(s) && s@ == svg@
                },
                Err(e) => svg_size(svg@) is None && e == PyramusError::SvgParseError,
            },
    {
        match parse_svg_size(svg) {
            None => Err(PyramusError::SvgParseError),
            Some((w, h)) => Ok(
                PropItemImage {
                    data: PropItemImageData::Svg(svg.to_owned()),
                    viewport_width: w,
                    viewport_height: h,
                },
            ),
        }
    }

    /// Builds an image leaf holding a solid or stroked rectangle as an SVG
    /// document of the given size. The opacity is counted in thousandths.
    pub fn from_rect(w: u32, h: u32, color: &str, stroke: Option<u32>, alpha_milli: i64) -> (r:
        PropItemImage)
        ensures
            r.data matches PropItemImageData::Svg(s) && s@ == rect_svg(
                w as int,
                h as int,
                color@,
                match stroke {
                    Some(sw) => Some(sw as int),
                    None => None,
                },
                alpha_milli as int,
            ),
            r.viewport_width == w,
            r.viewport_height == h,
    {
        let svg = build_svg_rect(w, h, color, stroke, alpha_milli);
        PropItemImage { data: PropItemImageData::Svg(svg), viewport_width: w, viewport_height: h }
    }
}

/// Relies on str's PartialEq: whether the two strings hold the same
/// characters.
#[verifier::external_body]
pub fn str_eq(a: &str, b: &str) -> (r: bool)
    ensures
        r == (a@ == b@),
{
    a == b
}

/// The text of an SVG document holding one rectangle of the given size,
/// color and opacity, stroked when a stroke width is given.
pub open spec fn rect_svg(
    w: int,
    h: int,
    color: Seq<char>,
    stroke: Option<int>,
    alpha_milli: int,
) -> Seq<char> {
    let paint = match stroke {
        Some(sw) => "stroke=\""@ + color + "\" stroke-width=\""@ + dec_str(sw)
            + "\" fill=\""@ + color + "\" fill-opacity=\""@ + milli_str(alpha_milli) + "\""@,
        None => "fill=\""@ + color + "\" fill-opacity=\""@ + milli_str(alpha_milli) + "\""@,
    };
    "<svg width=\""@ + dec_str(w) + "\" height=\""@ + dec_str(h)
        + "\" xmlns=\"http://www.w3.org/2000/svg\"><rect x=\"0\" y=\"0\" width=\""@ + dec_str(w)
        + "\" height=\""@ + dec_str(h) + "\" "@ + paint + "/></svg>"@
}

/// Builds the text of an SVG document holding one rectangle. The opacity is
/// counted in thousandths.
pub fn build_svg_rect(w: u32, h: u32, color: &str, stroke: Option<u32>, alpha_milli: i64) -> (r:
    String)
    ensures
        r@ == rect_svg(
            w as int,
            h as int,
            color@,
            match stroke {
                Some(sw) => Some(sw as int),
                None => None,
            },
            alpha_milli as int,
        ),
{
    let mut s = String::new();
    s.append("<svg width=\"");
    fmt_u64_into(w as u64, &mut s);
    s.append("\" height=\"");
    fmt_u64_into(h as u64, &mut s);
    s.append("\" xmlns=\"http://www.w3.org/2000/svg\"><rect x=\"0\" y=\"0\" width=\"");
    fmt_u64_into(w as u64, &mut s);
    s.append("\" height=\"");
    fmt_u64_into(h as u64, &mut s);
    s.append("\" ");
    match stroke {
        Some(sw) => {
            s.append("stroke=\"");
            s.append(color);
            s.append("\" stroke-width=\"");
            fmt_u64_into(sw as u64, &mut s);
            s.append("\" fill=\"");
            s.append(color);
            s.append("\" fill-opacity=\"");
            let a = fmt_milli(alpha_milli);
            s.append(a.as_str());
            s.append("\"");
        },
        None => {
            s.append("fill=\"");
            s.append(color);
            s.append("\" fill-opacity=\"");
            let a = fmt_milli(alpha_milli);
            s.append(a.as_str());
            s.append("\"");
        },
    }
    s.append("/></svg>");
    proof {
        assert(s@ =~= rect_svg(
            w as int,
            h as int,
            color@,
            match stroke {
                Some(sw) => Some(sw as int),
                None => None,
            },
            alpha_milli as int,
        ));
    }
    s
}

} // verus!
