use vstd::prelude::*;
use vstd::string::*;

use crate::PyramusError;
use crate::ids::InternalId;
use crate::item::{
    PropItemImage, PropItemImageData, PropItemText, PropItemType, decoded_image, known_raster_ext,
    rect_svg, svg_size, build_svg_rect,
};
use crate::scene::{Prop, PropItem, StageItem, StagingContext};
use crate::transform::RelativeTransform;

verus! {

/// A recorded description of a leaf to build: text with its styling, or an
/// image from SVG text or from encoded bytes.
#[derive(Debug)]
pub enum PropItemTypeBuilder {
    Text { text: String, font_family: String, font_size: u32, color: (u8, u8, u8), italic: bool },
    ImageFromSvg(String),
    ImageFromBytes { bytes: Vec<u8>, ext: String },
}

/// A recorded description of a prop to build.
#[derive(Debug)]
pub enum PropTypeBuilder {
    Empty { width: u32, height: u32 },
}

/// The kind of node an item builder will produce.
#[derive(Debug)]
pub enum BuilderType {
    PropItem(PropItemTypeBuilder),
    Prop(PropTypeBuilder),
}

/// A fluent descriptor for a node to create: name, payload, optional parent
/// and transform. Building is the only point at which validation runs.
#[derive(Debug)]
pub struct ItemBuilder {
    pub name: String,
    pub builder: BuilderType,
    pub parent: Option<InternalId>,
    pub transform: RelativeTransform,
}

/// The reason a leaf description is rejected at build time, if any: a zero
/// font size, unparseable SVG text, an unknown extension tag, or bytes that
/// cannot be decoded.
pub open spec fn leaf_error(tb: PropItemTypeBuilder) -> Option<PyramusError> {
    match tb {
        PropItemTypeBuilder::Text { font_size, .. } => if font_size == 0 {
            Some(PyramusError::InvalidFontSize)
        } else {
            None
        },
        PropItemTypeBuilder::ImageFromSvg(svg) => if svg_size(svg@) is None {
            Some(PyramusError::SvgParseError)
        } else {
            None
        },
        PropItemTypeBuilder::ImageFromBytes { bytes, ext } => if !known_raster_ext(ext@) {
            Some(PyramusError::UnsupportedImageFormat)
        } else if decoded_image(bytes@) is None || ext@ == "svg"@ {
            Some(PyramusError::ImageDecodeError)
        } else {
            None
        },
    }
}

/// What a successfully built leaf payload holds, for each description.
pub open spec fn leaf_built(tb: PropItemTypeBuilder, p: PropItemType) -> bool {
    match tb {
        PropItemTypeBuilder::Text { text, font_family, font_size, color, italic } => {
            &&& p matches PropItemType::Text(t)
            &&& t.text@ == text@
            &&& t.font_family@ == font_family@
            &&& t.font_size == font_size
            &&& t.color == color
            &&& t.italic == italic
        },
        PropItemTypeBuilder::ImageFromSvg(svg) => {
            &&& p matches PropItemType::Image(im)
            &&& im.data matches PropItemImageData::Svg(s) && s@ == svg@
            &&& svg_size(svg@) == Some((im.viewport_width as int, im.viewport_height as int))
        },
        PropItemTypeBuilder::ImageFromBytes { bytes, ext } => {
            &&& p matches PropItemType::Image(im)
            &&& decoded_image(bytes@) matches Some((w, h, png)) && im.viewport_width as int == w
                && im.viewport_height as int == h && match im.data {
                PropItemImageData::Png(b) => ext@ == "png"@ && b@ == png,
                PropItemImageData::Jpeg(b) => (ext@ == "jpg"@ || ext@ == "jpeg"@) && b@ == png,
                PropItemImageData::Gif(b) => ext@ == "gif"@ && b@ == png,
                PropItemImageData::Svg(_) => false,
            }
        },
    }
}

impl PropItemTypeBuilder {
    /// Builds and validates the leaf payload.
    pub fn build(self) -> (r: Result<PropItemType, PyramusError>)
        ensures
            match r {
                Ok(p) => leaf_error(self) is None && leaf_built(self, p) && p.valid(),
                Err(e) => leaf_error(self) == Some(e),
            },
    {
        match self {
            PropItemTypeBuilder::Text { text, font_family, font_size, color, italic } => {
                if font_size == 0 {
                    Err(PyramusError::InvalidFontSize)
                } else {
                    Ok(
                        PropItemType::Text(
                            PropItemText { text, font_family, font_size, color, italic },
                        ),
                    )
                }
            },
            PropItemTypeBuilder::ImageFromSvg(svg) => {
                match PropItemImage::from_svg_string(svg.as_str()) {
                    Ok(im) => Ok(PropItemType::Image(im)),
                    Err(e) => Err(e),
                }
            },
            PropItemTypeBuilder::ImageFromBytes { bytes, ext } => {
                match PropItemImage::from_bytes(bytes, ext.as_str()) {
                    Ok(im) => {
                        proof {
                            broadcast use vstd::string::group_string_axioms;

                            reveal_strlit("png");
                            reveal_strlit("jpg");
                            reveal_strlit("jpeg");
                            reveal_strlit("gif");
                            reveal_strlit("svg");
                            assert("png"@[0] == 'p' && "svg"@[0] == 's');
                            assert("jpg"@[0] == 'j' && "jpeg"@[0] == 'j' && "gif"@[0] == 'g');
                            assert("png"@ != "svg"@);
                            assert("jpg"@ != "svg"@);
                            assert("jpeg"@ != "svg"@);
                            assert("gif"@ != "svg"@);
                        }
                        Ok(PropItemType::Image(im))
                    },
                    Err(e) => Err(e),
                }
            },
        }
    }
}

impl PropTypeBuilder {
    /// Builds the described prop under the given name.
    pub fn build(self, name: String) -> (r: Result<Prop, PyramusError>)
        ensures
            match (self, r) {
                (PropTypeBuilder::Empty { width, height }, Ok(p)) => {
                    &&& width > 0 && height > 0
                    &&& p.template.wf()
                    &&& p.template.size == (width, height)
                    &&& p.name@ == name@
                    &&& p.staging.parent is None
                    &&& p.staging.children@ =~= Seq::<InternalId>::empty()
                    &&& p.staging.transform == RelativeTransform::identity()
                },
                (PropTypeBuilder::Empty { width, height }, Err(e)) => e
                    == PyramusError::InvalidSize && (width == 0 || height == 0),
            },
    {
        match self {
            PropTypeBuilder::Empty { width, height } => Prop::new(name, width, height),
        }
    }
}

impl ItemBuilder {
    /// Creates a builder for a basic black 12-point upright Arial text leaf.
    pub fn build_text_basic(text: String) -> (r: ItemBuilder)
        ensures
            r.name@ == "text"@,
            r.parent is None,
            r.transform == RelativeTransform::identity(),
            r.builder matches BuilderType::PropItem(PropItemTypeBuilder::Text {
                text: t,
                font_family,
                font_size,
                color,
                italic,
            }) && t@ == text@ && font_family@ == "Arial"@ && font_size == 12 && color == (
                0u8,
                0u8,
                0u8,
            ) && !italic,
    {
        ItemBuilder {
            name: String::from_str("text"),
            builder: BuilderType::PropItem(
                PropItemTypeBuilder::Text {
                    text,
                    font_family: String::from_str("Arial"),
                    font_size: 12,
                    color: (0, 0, 0),
                    italic: false,
                },
            ),
            parent: None,
            transform: RelativeTransform::new_identity(),
        }
    }

    /// Creates a builder for a styled text leaf.
    pub fn build_text(
        text: String,
        font_family: String,
        font_size: u32,
        color: (u8, u8, u8),
        italic: bool,
    ) -> (r: ItemBuilder)
        ensures
            r.name@ == "text"@,
            r.parent is None,
            r.transform == RelativeTransform::identity(),
            r.builder matches BuilderType::PropItem(PropItemTypeBuilder::Text {
                text: t,
                font_family: ff,
                font_size: fs,
                color: c,
                italic: it,
            }) && t@ == text@ && ff@ == font_family@ && fs == font_size && c == color && it
                == italic,
    {
        ItemBuilder {
            name: String::from_str("text"),
            builder: BuilderType::PropItem(
                PropItemTypeBuilder::Text { text, font_family, font_size, color, italic },
            ),
            parent: None,
            transform: RelativeTransform::new_identity(),
        }
    }

    /// Creates a builder for an image leaf from the text of an SVG document.
    pub fn build_image_from_svg(svg: String) -> (r: ItemBuilder)
        ensures
            r.name@ == "image"@,
            r.parent is None,
            r.transform == RelativeTransform::identity(),
            r.builder matches BuilderType::PropItem(PropItemTypeBuilder::ImageFromSvg(s)) && s@
                == svg@,
    {
        ItemBuilder {
            name: String::from_str("image"),
            builder: BuilderType::PropItem(PropItemTypeBuilder::ImageFromSvg(svg)),
            parent: None,
            transform: RelativeTransform::new_identity(),
        }
    }

    /// Creates a builder for an image leaf from encoded bytes under an
    /// extension tag.
    pub fn build_image_from_bytes(bytes: Vec<u8>, ext: String) -> (r: ItemBuilder)
        ensures
            r.name@ == "image"@,
            r.parent is None,
            r.transform == RelativeTransform::identity(),
            r.builder matches BuilderType::PropItem(PropItemTypeBuilder::ImageFromBytes {
                bytes: b,
                ext: e,
            }) && b@ == bytes@ && e@ == ext@,
    {
        ItemBuilder {
            name: String::from_str("image"),
            builder: BuilderType::PropItem(PropItemTypeBuilder::ImageFromBytes { bytes, ext }),
            parent: None,
            transform: RelativeTransform::new_identity(),
        }
    }

    /// Creates a builder for an image leaf holding a rectangle, with the
    /// opacity counted in thousandths.
    pub fn build_image_from_rect(
        w: u32,
        h: u32,
        color: &str,
        stroke: Option<u32>,
        alpha_milli: i64,
    ) -> (r: ItemBuilder)
        ensures
            r.name@ == "image"@,
            r.parent is None,
            r.transform == RelativeTransform::identity(),
            r.builder matches BuilderType::PropItem(PropItemTypeBuilder::ImageFromSvg(s)) && s@
                == rect_svg(
                w as int,
                h as int,
                color@,
                match stroke {
                    Some(sw) => Some(sw as int),
                    None => None,
                },
                alpha_milli as int,
            ),
    {
        ItemBuilder::build_image_from_svg(build_svg_rect(w, h, color, stroke, alpha_milli))
    }

    /// Creates a builder for an empty prop of the given size.
    pub fn build_empty_prop(width: u32, height: u32) -> (r: ItemBuilder)
        ensures
            r.name@ == "prop"@,
            r.parent is None,
            r.transform == RelativeTransform::identity(),
            r.builder matches BuilderType::Prop(PropTypeBuilder::Empty { width: w, height: h })
                && w == width && h == height,
    {
        ItemBuilder {
            name: String::from_str("prop"),
            builder: BuilderType::Prop(PropTypeBuilder::Empty { width, height }),
            parent: None,
            transform: RelativeTransform::new_identity(),
        }
    }

    /// Sets the parent under which the node will be attached.
    pub fn parent(self, parent: InternalId) -> (r: ItemBuilder)
        ensures
            r.parent == Some(parent),
            r.name == self.name,
            r.builder == self.builder,
            r.transform == self.transform,
    {
        ItemBuilder { parent: Some(parent), ..self }
    }

    /// Sets the transform the node will carry.
    pub fn transform(self, transform: RelativeTransform) -> (r: ItemBuilder)
        ensures
            r.transform == transform,
            r.name == self.name,
            r.builder == self.builder,
            r.parent == self.parent,
    {
        ItemBuilder { transform, ..self }
    }

    /// Sets the name the node will carry.
    pub fn name(self, name: String) -> (r: ItemBuilder)
        ensures
            r.name@ == name@,
            r.builder == self.builder,
            r.parent == self.parent,
            r.transform == self.transform,
    {
        ItemBuilder { name, ..self }
    }

    /// Builds the described node under the given fresh id and parent. The
    /// node comes out with no children and the recorded name and transform.
    pub fn build(self, id: InternalId, parent: InternalId) -> (r: Result<StageItem, PyramusError>)
        ensures
            match r {
                Ok(n) => {
                    &&& n.spec_id() == id
                    &&& n.spec_parent() == Some(parent)
                    &&& n.spec_children() =~= Seq::<InternalId>::empty()
                    &&& n.spec_transform() == self.transform
                    &&& n.spec_name() == self.name@
                    &&& match self.builder {
                        BuilderType::PropItem(tb) => leaf_error(tb) is None && (n
                            matches StageItem::PropItem(pi) && leaf_built(tb, pi.item)
                            && pi.item.valid()),
                        BuilderType::Prop(PropTypeBuilder::Empty { width, height }) => n
                            matches StageItem::Prop(p) && p.template.wf() && p.template.size == (
                            width,
                            height,
                        ),
                    }
                },
                Err(e) => match self.builder {
                    BuilderType::PropItem(tb) => leaf_error(tb) == Some(e),
                    BuilderType::Prop(PropTypeBuilder::Empty { width, height }) => e
                        == PyramusError::InvalidSize && (width == 0 || height == 0),
                },
            },
    {
        let ItemBuilder { name, builder, parent: _, transform } = self;
        match builder {
            BuilderType::PropItem(tb) => {
                let payload = match tb.build() {
                    Ok(p) => p,
                    Err(e) => {
                        return Err(e);
                    },
                };
                let mut staging = StagingContext::new();
                staging.parent = Some(parent);
                staging.transform = transform;
                Ok(StageItem::PropItem(PropItem { id, name, item: payload, staging }))
            },
            BuilderType::Prop(pb) => {
                let mut prop = match pb.build(name) {
                    Ok(p) => p,
                    Err(e) => {
                        return Err(e);
                    },
                };
                prop.id = id;
                prop.staging.parent = Some(parent);
                prop.staging.transform = transform;
                Ok(StageItem::Prop(prop))
            },
        }
    }
}

} // verus!
