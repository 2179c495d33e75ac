use vstd::prelude::*;

pub mod strutil;
pub mod numfmt;
pub mod ids;
pub mod transform;
pub mod geom;
pub mod item;
pub mod scene;
pub mod reach;
pub mod ops;
pub mod base;
pub mod builder;
pub mod input;
pub mod stage;
pub mod command;
pub mod b64;
pub mod render;

verus! {

/// The error taxonomy of the engine. Every fallible operation reports one of
/// these kinds; commands that fail leave the stage unchanged.
#[derive(Debug, Clone, Copy, PartialEq, Eq, Structural)]
pub enum PyramusError {
    /// A command named an item id that is not in the template.
    ItemNotFound,
    /// A builder named a parent id that is not in the template.
    ParentNotFound,
    /// The root item's transform cannot be edited.
    CannotEditRoot,
    /// The root item cannot be removed.
    CannotRemoveRoot,
    /// A text leaf was built with a font size of zero.
    InvalidFontSize,
    /// A container was built with a zero width or height.
    InvalidSize,
    /// A textual shareable id could not be decoded.
    InvalidIdentifier,
    /// Encoded raster bytes could not be decoded as an image.
    ImageDecodeError,
    /// The extension tag of an uploaded image names no supported format.
    UnsupportedImageFormat,
    /// An SVG document could not be parsed.
    SvgParseError,
    /// A persisted document could not be parsed back into a base.
    SerializationError,
    /// A base document was not present in the asset cache.
    AssetUnavailable,
    /// No runtime has been started by the host.
    NoRuntimeFound,
    /// A builder's node kind does not fit the container being edited: props
    /// hold leaf items, blueprints hold props.
    MismatchedItemKind,
}

} // verus!
