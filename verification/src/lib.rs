//! Loader for TMX tile-map documents.
//!
//! The crate decodes the hard parts of the format with verified code: the
//! tile-layer data pipeline (CSV or base64 text, optionally zlib- or
//! gzip-compressed, turned into an ordered list of 32-bit tile GIDs), the
//! typed property decoder, the color and polygon-point parsers, and the
//! classifier that buckets a map's document-order children into its typed
//! collections. XML deserialization and file I/O are outside collaborators
//! and live in the surrounding application code.

use vstd::prelude::*;

mod codec;
mod color;
mod data;
mod map;
mod objects;
mod properties;
mod text;

pub use color::Color;
pub use data::{
    lemma_base64_pipeline, lemma_csv_rejects_compression, lemma_csv_round_trip,
    lemma_truncation_rejected, Data, DataCompression, DataEncoding,
};
pub use map::{
    classify_children, Image, ImageLayer, Layer, MapChild, MapHeader, MapLayer, Orientation,
    StaggerAxis, StaggerIndex, Tile, TileMap, TileRenderOrder, Tileset,
};
pub use objects::{parse_points, Ellipse, Object, Objectgroup, Polygon, Polyline};
pub use properties::{
    decode_properties, lemma_duplicate_never_decodes, Properties, Property, RawProperty,
};
pub use text::{is_float_literal, parse_i64};

verus! {

/// Everything a load can fail with. Each decoding function says in its
/// contract exactly which inputs produce which variant.
#[derive(Debug, Clone, PartialEq, Eq)]
pub enum TmxError {
    /// The document does not match the expected grammar; carries the
    /// offending tag or a short description.
    Schema(String),
    /// Malformed base64 text in a tile-data payload.
    EncodingError,
    /// Malformed zlib or gzip stream in a tile-data payload.
    DecompressionError,
    /// A compression tag paired with an encoding that does not allow one.
    IncompatibleEncodingCompression,
    /// A decompressed base64 payload whose byte length is not a multiple of 4.
    TruncatedTileData,
    /// A CSV token that does not fit in an unsigned 32-bit integer.
    MalformedTileData,
    /// Text content found where only inline `tile` child elements are legal.
    UnexpectedTextData,
    /// A property value that does not parse under its declared type; carries
    /// the property name.
    PropertyParseError(String),
    /// A property `type` attribute outside the known set; carries the tag.
    UnknownPropertyType(String),
    /// Two properties of the same name under one block; carries the name.
    DuplicateProperty(String),
    /// More than one properties block under the same parent.
    MultiplePropertiesBlocks,
    /// A color attribute that is not an optional `#`, an optional two-digit
    /// alpha, and three two-digit hex components.
    MalformedColor,
    /// A polygon or polyline point whose coordinate does not fit in a
    /// signed 32-bit integer.
    MalformedPoints,
    /// An `encoding` attribute outside {`base64`, `csv`}; carries the tag.
    UnknownEncoding(String),
    /// A `compression` attribute outside {`zlib`, `gzip`}; carries the tag.
    UnknownCompression(String),
}

} // verus!
