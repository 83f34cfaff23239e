//! A reader for the Qt binary JSON format ("qbjs").
//!
//! A document is a magic tag, a version and one root container. A container
//! is a header (its byte size, its element count with an object flag, and the
//! position of its offset table) followed by its data; every offset inside it
//! counts from the container's own first byte. Decoding is a pure function of
//! the bytes; `from_binary` returns the tree that `parse_document` describes.
use vstd::prelude::*;

pub mod bytes;
pub mod decode;
pub mod elements;
pub mod error;
pub mod laws;
pub mod number;
pub mod text;

use crate::bytes::{le32, read_u32_le};
use crate::decode::{decode_element, load_element};
use crate::elements::{Json, JsonBaseValue, JsonValue};
use crate::error::DecodeError;
use crate::text::StringFormat;

verus! {

/// The magic tag "qbjs" read as a little-endian `u32`.
pub const QT_JSON_TAG: u32 = 0x736a_6271;

/// The only format version this reader accepts.
pub const QT_JSON_VERSION: u32 = 1;

/// How many containers deep below the root the reader follows.
pub const MAX_NESTING: u32 = 512;

/// A parsed document: its tag, its version and its root container.
#[derive(Debug)]
pub struct QJSONDocument {
    /// "qbjs" as a `u32`.
    pub tag: u32,
    /// The format version; always 1.
    pub version: u32,
    /// The root container.
    pub base: JsonBaseValue,
}

/// The root of a document held by `b`, with strings laid out as `fmt` says.
pub open spec fn parse_document(b: Seq<u8>, fmt: StringFormat) -> Result<Json, DecodeError> {
    if b.len() < 8 {
        Err(DecodeError::TruncatedData)
    } else if le32(b, 0) != QT_JSON_TAG {
        Err(DecodeError::FormatError)
    } else if le32(b, 4) != QT_JSON_VERSION {
        Err(DecodeError::FormatError)
    } else {
        match decode_element(b.subrange(8, b.len() as int), MAX_NESTING as nat, fmt) {
            Ok(v) => if v is Object || v is Array {
                Ok(v)
            } else {
                Err(DecodeError::FormatError)
            },
            Err(e) => Err(e),
        }
    }
}

/// The root that a parse returned, as a mathematical value.
pub open spec fn document_result(r: Result<QJSONDocument, DecodeError>) -> Result<Json, DecodeError> {
    match r {
        Ok(d) => Ok(d.base@),
        Err(e) => Err(e),
    }
}

/// The string layout `StringFormat::standard` gives.
pub open spec fn standard_format() -> StringFormat {
    StringFormat { wide_length: false, big_endian_units: false, lossy: false }
}

impl QJSONDocument {
    /// Parses a document whose strings use the standard layout.
    pub fn from_binary(data: Vec<u8>) -> (r: Result<Self, DecodeError>)
        ensures
            document_result(r) == parse_document(data@, standard_format()),
            r matches Ok(d) ==> d.tag == QT_JSON_TAG && d.version == QT_JSON_VERSION,
    {
        Self::from_binary_with_format(data.as_slice(), StringFormat::standard())
    }

    /// Parses a document whose strings are laid out as `fmt` says.
    pub fn from_binary_with_format(data: &[u8], fmt: StringFormat) -> (r: Result<Self, DecodeError>)
        ensures
            document_result(r) == parse_document(data@, fmt),
            r matches Ok(d) ==> d.tag == QT_JSON_TAG && d.version == QT_JSON_VERSION,
    {
        let len = data.len();
        if len < 8 {
            return Err(DecodeError::TruncatedData);
        }
        let tag = read_u32_le(data, 0);
        let version = read_u32_le(data, 4);
        if tag != QT_JSON_TAG || version != QT_JSON_VERSION {
            return Err(DecodeError::FormatError);
        }
        let base = match load_element(&data[8..len], MAX_NESTING, fmt) {
            Ok(JsonValue::Object(o)) => JsonBaseValue::Object(o),
            Ok(JsonValue::Array(a)) => JsonBaseValue::Array(a),
            Ok(_) => {
                // the root must be a container
                return Err(DecodeError::FormatError);
            },
            Err(e) => {
                return Err(e);
            },
        };
        Ok(QJSONDocument { tag, version, base })
    }
}

} // verus!
