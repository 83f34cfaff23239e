use qt_json::elements::{JsonBaseValue, JsonValue, Members};
use qt_json::error::DecodeError;
use qt_json::number::int_to_double_bits;
use qt_json::text::{code_units_of, decode_latin1, decode_utf16, StringFormat};
use qt_json::QJSONDocument;

fn le(v: u32) -> [u8; 4] {
    v.to_le_bytes()
}

/// A document around one container region.
fn document(region: &[u8]) -> Vec<u8> {
    let mut out = b"qbjs\x01\x00\x00\x00".to_vec();
    out.extend_from_slice(region);
    out
}

/// A container: header, then `data`, then the offset table.
fn container(is_object: bool, table: &[u32], data: &[u8]) -> Vec<u8> {
    let size = 12 + data.len() + 4 * table.len();
    let header = ((table.len() as u32) << 1) | (is_object as u32);
    let mut out = Vec::new();
    out.extend_from_slice(&le(size as u32));
    out.extend_from_slice(&le(header));
    out.extend_from_slice(&le(12 + data.len() as u32));
    out.extend_from_slice(data);
    for t in table {
        out.extend_from_slice(&le(*t));
    }
    out
}

fn descriptor(kind: u32, inline: bool, latin: bool, payload: u32) -> u32 {
    kind | ((inline as u32) << 3) | ((latin as u32) << 4) | (payload << 5)
}

fn array_items(bytes: &[u8]) -> Vec<JsonValue> {
    match QJSONDocument::from_binary(bytes.to_vec()).unwrap().base {
        JsonBaseValue::Array(v) => v,
        _ => panic!("Expected array"),
    }
}

fn single_string(bytes: &[u8], fmt: StringFormat) -> Result<String, DecodeError> {
    let doc = QJSONDocument::from_binary_with_format(bytes, fmt)?;
    match doc.base {
        JsonBaseValue::Array(mut v) => match v.remove(0) {
            JsonValue::String(s) => Ok(s),
            _ => panic!("Expected string"),
        },
        _ => panic!("Expected array"),
    }
}

#[test]
fn inline_number_is_widened() {
    let data = b"qbjs\x01\x00\x00\x00\x10\x00\x00\x00\x02\x00\x00\x00\x0C\x00\x00\x00\x4A\x01\x00\x00";
    let items = array_items(data);
    assert_eq!(items.len(), 1);
    match items[0] {
        JsonValue::Number(n) => assert_eq!(f64::from_bits(n), 10.0),
        _ => panic!("Expected number"),
    }
}

#[test]
fn header_fields_are_kept() {
    let data = b"qbjs\x01\x00\x00\x00\x10\x00\x00\x00\x02\x00\x00\x00\x0C\x00\x00\x00\x4A\x01\x00\x00";
    let doc = QJSONDocument::from_binary(data.to_vec()).unwrap();
    assert_eq!(doc.tag, u32::from_le_bytes(*b"qbjs"));
    assert_eq!(doc.version, 1);
}

#[test]
fn altered_tag_is_format_error() {
    let data = b"xbjs\x01\x00\x00\x00\x10\x00\x00\x00\x02\x00\x00\x00\x0C\x00\x00\x00\x21\x00\x00\x00";
    let r = QJSONDocument::from_binary(data.to_vec());
    assert!(matches!(r, Err(DecodeError::FormatError)));
}

#[test]
fn other_version_is_format_error() {
    let data = b"qbjs\x02\x00\x00\x00\x10\x00\x00\x00\x02\x00\x00\x00\x0C\x00\x00\x00\x21\x00\x00\x00";
    let r = QJSONDocument::from_binary(data.to_vec());
    assert!(matches!(r, Err(DecodeError::FormatError)));
}

#[test]
fn short_buffers_are_truncated() {
    let r = QJSONDocument::from_binary(b"qbjs\x01\x00\x00".to_vec());
    assert!(matches!(r, Err(DecodeError::TruncatedData)));
    let r = QJSONDocument::from_binary(b"qbjs\x01\x00\x00\x00\x10\x00\x00\x00".to_vec());
    assert!(matches!(r, Err(DecodeError::TruncatedData)));
    let r = QJSONDocument::from_binary(Vec::new());
    assert!(matches!(r, Err(DecodeError::TruncatedData)));
}

#[test]
fn table_offset_past_end_is_truncated() {
    let mut region = container(false, &[0x21], &[]);
    region[8..12].copy_from_slice(&le(99));
    let r = QJSONDocument::from_binary(document(&region));
    assert!(matches!(r, Err(DecodeError::TruncatedData)));
}

#[test]
fn short_table_is_size_mismatch() {
    let mut region = container(false, &[0x21], &[]);
    // declare two elements while the table holds one
    region[4..8].copy_from_slice(&le(2 << 1));
    let r = QJSONDocument::from_binary(document(&region));
    assert!(matches!(r, Err(DecodeError::SizeMismatch)));
    let mut region = container(true, &[], &[]);
    region[4..8].copy_from_slice(&le((1 << 1) | 1));
    let r = QJSONDocument::from_binary(document(&region));
    assert!(matches!(r, Err(DecodeError::SizeMismatch)));
}

#[test]
fn unknown_kinds_are_undefined() {
    let region = container(false, &[0x06, 0x21, 0x07 | (5 << 5)], &[]);
    let items = array_items(&document(&region));
    assert_eq!(items.len(), 3);
    assert!(matches!(items[0], JsonValue::Undefined));
    assert!(matches!(items[1], JsonValue::Bool(true)));
    assert!(matches!(items[2], JsonValue::Undefined));
}

#[test]
fn null_and_false() {
    let region = container(false, &[0x00, 0x01], &[]);
    let items = array_items(&document(&region));
    assert!(matches!(items[0], JsonValue::Null));
    assert!(matches!(items[1], JsonValue::Bool(false)));
}

#[test]
fn empty_containers() {
    let items = array_items(&document(&container(false, &[], &[])));
    assert!(items.is_empty());
    let doc = QJSONDocument::from_binary(document(&container(true, &[], &[]))).unwrap();
    match doc.base {
        JsonBaseValue::Object(o) => {
            assert_eq!(o.size, 0);
            assert_eq!(o.values.len(), 0);
            assert!(o.values.get("x").is_none());
        }
        _ => panic!("Expected object"),
    }
}

#[test]
fn out_of_line_number_past_end_is_truncated() {
    let region = container(false, &[descriptor(2, false, false, 16)], &[0, 0, 0, 0]);
    let r = QJSONDocument::from_binary(document(&region));
    assert!(matches!(r, Err(DecodeError::TruncatedData)));
}

#[test]
fn latin_strings_map_bytes_to_code_points() {
    let region = container(false, &[descriptor(3, false, true, 12)], b"\x04\x00caf\xE9");
    let s = single_string(&document(&region), StringFormat::standard()).unwrap();
    assert_eq!(s, "caf\u{e9}");
    assert_eq!(s.chars().count(), 4);
}

#[test]
fn utf16_surrogate_pair_is_combined() {
    let region = container(false, &[descriptor(3, false, false, 12)], b"\x03\x00a\x00\x3D\xD8\x00\xDE");
    let s = single_string(&document(&region), StringFormat::standard()).unwrap();
    assert_eq!(s, "a\u{1F600}");
}

#[test]
fn lone_surrogate_strict_and_lossy() {
    let region = container(false, &[descriptor(3, false, false, 12)], b"\x02\x00\x00\xDCb\x00");
    let bytes = document(&region);
    let strict = single_string(&bytes, StringFormat::standard());
    assert!(matches!(strict, Err(DecodeError::InvalidEncoding)));
    let lossy = StringFormat { wide_length: false, big_endian_units: false, lossy: true };
    assert_eq!(single_string(&bytes, lossy).unwrap(), "\u{FFFD}b");
}

#[test]
fn string_past_end_is_truncated() {
    let region = container(false, &[descriptor(3, false, false, 12)], b"\x09\x00a\x00");
    let r = QJSONDocument::from_binary(document(&region));
    assert!(matches!(r, Err(DecodeError::TruncatedData)));
}

#[test]
fn wide_length_and_big_endian_units() {
    let region = container(false, &[descriptor(3, false, false, 12)], b"\x02\x00\x00\x00\x00h\x00i");
    let fmt = StringFormat { wide_length: true, big_endian_units: true, lossy: false };
    assert_eq!(single_string(&document(&region), fmt).unwrap(), "hi");
}

#[test]
fn duplicate_keys_last_wins() {
    // entries at 12 and 20: descriptor, then a latin key "a" (padded)
    let mut data = Vec::new();
    data.extend_from_slice(&le(descriptor(1, false, true, 1)));
    data.extend_from_slice(b"\x01\x00a\x00");
    data.extend_from_slice(&le(descriptor(1, false, true, 0)));
    data.extend_from_slice(b"\x01\x00a\x00");
    let region = container(true, &[12, 20], &data);
    let doc = QJSONDocument::from_binary(document(&region)).unwrap();
    match doc.base {
        JsonBaseValue::Object(o) => {
            assert_eq!(o.size, 2);
            assert_eq!(o.values.len(), 1);
            assert!(matches!(o.values.get("a"), Some(JsonValue::Bool(false))));
        }
        _ => panic!("Expected object"),
    }
}

#[test]
fn object_entry_past_end_is_truncated() {
    let region = container(true, &[200], &[]);
    let r = QJSONDocument::from_binary(document(&region));
    assert!(matches!(r, Err(DecodeError::TruncatedData)));
}

#[test]
fn utf16_key_is_decoded() {
    let mut data = Vec::new();
    data.extend_from_slice(&le(descriptor(0, false, false, 0)));
    data.extend_from_slice(b"\x02\x00k\x00\xF6\x00");
    let region = container(true, &[12], &data);
    let doc = QJSONDocument::from_binary(document(&region)).unwrap();
    match doc.base {
        JsonBaseValue::Object(o) => assert!(matches!(o.values.get("k\u{f6}"), Some(JsonValue::Null))),
        _ => panic!("Expected object"),
    }
}

#[test]
fn self_nesting_stops_with_format_error() {
    // an array whose one element is the array itself
    let region = container(false, &[descriptor(4, false, false, 0)], &[]);
    let r = QJSONDocument::from_binary(document(&region));
    assert!(matches!(r, Err(DecodeError::FormatError)));
}

#[test]
fn nested_offset_past_size_is_truncated() {
    let region = container(false, &[descriptor(5, false, false, 100)], &[]);
    let r = QJSONDocument::from_binary(document(&region));
    assert!(matches!(r, Err(DecodeError::TruncatedData)));
}

#[test]
fn nested_container_is_bounded_by_parent_size() {
    // the inner array's table lies inside the buffer but beyond the outer size
    let inner = container(false, &[0x21], &[]);
    let mut region = container(false, &[descriptor(4, false, false, 12)], &inner);
    let whole = region.len() as u32;
    region[0..4].copy_from_slice(&le(whole - 8));
    let r = QJSONDocument::from_binary(document(&region));
    assert!(matches!(r, Err(DecodeError::TruncatedData) | Err(DecodeError::SizeMismatch)));
    let region = container(false, &[descriptor(4, false, false, 12)], &inner);
    let items = array_items(&document(&region));
    match &items[0] {
        JsonValue::Array(v) => assert!(matches!(v[0], JsonValue::Bool(true))),
        _ => panic!("Expected array"),
    }
}

#[test]
fn parsing_is_deterministic() {
    let data = b"qbjs\x01\x00\x00\x00\x34\x00\x00\x00\x02\x00\x00\x00\x30\x00\x00\x00\x24\x00\
                \x00\x00\x03\x00\x00\x00\x20\x00\x00\x00\x1B\x03\x00\x00\x04\x00test\x00\x00\x03\
                \x00yes\x00\x00\x00\x0C\x00\x00\x00\x85\x01\x00\x00";
    let a = QJSONDocument::from_binary(data.to_vec()).unwrap();
    let b = QJSONDocument::from_binary(data.to_vec()).unwrap();
    assert_eq!(format!("{:?}", a), format!("{:?}", b));
}

#[test]
fn small_integers_as_doubles() {
    for x in [0u32, 1, 2, 3, 10, 255, 1000, (1 << 27) - 1, u32::MAX] {
        assert_eq!(int_to_double_bits(x), (x as f64).to_bits());
    }
    assert_eq!(int_to_double_bits(1), 0x3FF0_0000_0000_0000);
}

#[test]
fn one_character_per_latin_byte() {
    let chars = decode_latin1(b"\x00A\xFF");
    assert_eq!(chars, vec!['\u{0}', 'A', '\u{FF}']);
}

#[test]
fn one_code_unit_per_byte_pair() {
    assert_eq!(code_units_of(b"\x01\x02\x03\x04\x05", false), vec![0x0201, 0x0403]);
    assert_eq!(code_units_of(b"\x01\x02\x03\x04", true), vec![0x0102, 0x0304]);
}

#[test]
fn utf16_decoding() {
    assert_eq!(decode_utf16(&[0x68, 0xD83D, 0xDE00], false), Some(vec!['h', '\u{1F600}']));
    assert_eq!(decode_utf16(&[0xD83D], false), None);
    assert_eq!(decode_utf16(&[0xD83D], true), Some(vec!['\u{FFFD}']));
    assert_eq!(decode_utf16(&[], false), Some(vec![]));
}

#[test]
fn members_replace_in_place() {
    let mut m = Members::new();
    m.insert("x".to_string(), JsonValue::Null);
    m.insert("y".to_string(), JsonValue::Bool(true));
    m.insert("x".to_string(), JsonValue::Bool(false));
    assert_eq!(m.len(), 2);
    assert!(matches!(m.get("x"), Some(JsonValue::Bool(false))));
    assert!(matches!(m.get("y"), Some(JsonValue::Bool(true))));
    assert!(m.get("z").is_none());
}

#[test]
fn members_in_first_seen_order() {
    let mut m = Members::new();
    m.insert("b".to_string(), JsonValue::Null);
    m.insert("a".to_string(), JsonValue::Bool(true));
    m.insert("b".to_string(), JsonValue::Bool(false));
    let (k0, v0) = m.entry(0);
    let (k1, v1) = m.entry(1);
    assert_eq!(k0, "b");
    assert!(matches!(v0, JsonValue::Bool(false)));
    assert_eq!(k1, "a");
    assert!(matches!(v1, JsonValue::Bool(true)));
}
