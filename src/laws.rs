//! Properties of the decoder, stated over its model and proved.
use vstd::prelude::*;

use crate::bytes::le32;
use crate::decode::{decode_element, decode_items, decode_members, decode_value, value_kind};
use crate::elements::{keys_distinct, lemma_insert_member, Json};
use crate::error::DecodeError;
use crate::text::StringFormat;
use crate::{document_result, parse_document, QJSONDocument, QT_JSON_TAG, QT_JSON_VERSION};

verus! {

/// The four bytes "qbjs": `q`, `b`, `j`, `s`.
pub open spec fn magic_bytes() -> Seq<u8> {
    seq![0x71u8, 0x62u8, 0x6au8, 0x73u8]
}

proof fn lemma_le32_bytes(b: Seq<u8>, i: int, c: Seq<u8>)
    requires
        0 <= i,
        i + 4 <= b.len(),
        c.len() == 4,
    ensures
        (le32(b, i) == le32(c, 0)) <==> (b.subrange(i, i + 4) == c),
{
    if b.subrange(i, i + 4) == c {
        assert(b[i] == c[0] && b[i + 1] == c[1] && b[i + 2] == c[2] && b[i + 3] == c[3]);
    }
    if le32(b, i) == le32(c, 0) {
        assert(b.subrange(i, i + 4) =~= c);
    }
}

/// Every document that parses starts with the bytes "qbjs"; a buffer of eight
/// or more bytes that starts otherwise fails with `FormatError`.
pub proof fn tag_must_be_qbjs(b: Seq<u8>, fmt: StringFormat)
    ensures
        parse_document(b, fmt) is Ok ==> b.len() >= 8 && b.subrange(0, 4) == magic_bytes(),
        b.len() >= 8 && b.subrange(0, 4) != magic_bytes() ==> parse_document(b, fmt) == Err::<
            Json,
            DecodeError,
        >(DecodeError::FormatError),
{
    assert(le32(magic_bytes(), 0) == QT_JSON_TAG);
    if b.len() >= 8 {
        lemma_le32_bytes(b, 0, magic_bytes());
    }
}

/// Every document that parses has version 1 (the bytes 1, 0, 0, 0 after the
/// tag); one with the right tag and any other version fails with `FormatError`.
pub proof fn version_must_be_one(b: Seq<u8>, fmt: StringFormat)
    ensures
        parse_document(b, fmt) is Ok ==> b.len() >= 8 && b.subrange(4, 8) == seq![1u8, 0u8, 0u8, 0u8],
        b.len() >= 8 && b.subrange(0, 4) == magic_bytes() && b.subrange(4, 8) != seq![1u8, 0u8, 0u8, 0u8]
            ==> parse_document(b, fmt) == Err::<Json, DecodeError>(DecodeError::FormatError),
{
    let one = seq![1u8, 0u8, 0u8, 0u8];
    assert(le32(one, 0) == QT_JSON_VERSION);
    assert(le32(magic_bytes(), 0) == QT_JSON_TAG);
    if b.len() >= 8 {
        lemma_le32_bytes(b, 0, magic_bytes());
        lemma_le32_bytes(b, 4, one);
    }
}

/// Two parses of the same bytes give the same tree.
pub proof fn parse_is_deterministic(
    b: Seq<u8>,
    fmt: StringFormat,
    first: Result<QJSONDocument, DecodeError>,
    second: Result<QJSONDocument, DecodeError>,
)
    requires
        document_result(first) == parse_document(b, fmt),
        document_result(second) == parse_document(b, fmt),
    ensures
        document_result(first) == document_result(second),
{
}

/// A container whose offset table has room for fewer entries than its header
/// declares fails with `SizeMismatch`.
pub proof fn short_table_is_size_mismatch(r: Seq<u8>, depth: nat, fmt: StringFormat)
    requires
        r.len() >= 12,
        le32(r, 8) <= r.len(),
        (r.len() - le32(r, 8)) / 4 < le32(r, 4) / 2,
    ensures
        decode_element(r, depth, fmt) == Err::<Json, DecodeError>(DecodeError::SizeMismatch),
{
}

/// A document with a valid tag and version whose root container's offset
/// table is too short fails with `SizeMismatch`.
pub proof fn short_root_table_is_size_mismatch(b: Seq<u8>, fmt: StringFormat)
    requires
        b.len() >= 20,
        b.subrange(0, 4) == magic_bytes(),
        b.subrange(4, 8) == seq![1u8, 0u8, 0u8, 0u8],
        le32(b, 16) <= b.len() - 8,
        (b.len() - 8 - le32(b, 16)) / 4 < le32(b, 12) / 2,
    ensures
        parse_document(b, fmt) == Err::<Json, DecodeError>(DecodeError::SizeMismatch),
{
    tag_must_be_qbjs(b, fmt);
    version_must_be_one(b, fmt);
    let r = b.subrange(8, b.len() as int);
    assert(le32(r, 4) == le32(b, 12));
    assert(le32(r, 8) == le32(b, 16));
    short_table_is_size_mismatch(r, crate::MAX_NESTING as nat, fmt);
}

/// A descriptor with an unrecognised type tag decodes to `Undefined`, never
/// to an error.
pub proof fn unknown_kind_is_undefined(
    r: Seq<u8>,
    d: u32,
    size: u32,
    depth: nat,
    fmt: StringFormat,
)
    requires
        value_kind(d) >= 6,
    ensures
        decode_value(r, d, size, depth, fmt) == Ok::<Json, DecodeError>(Json::Undefined),
{
}

/// Array entries `i..n` whose descriptors all carry unrecognised type tags
/// decode, each to `Undefined`: the array around them still decodes.
pub proof fn unknown_entries_keep_array(
    r: Seq<u8>,
    table: int,
    n: u32,
    size: u32,
    i: int,
    acc: Seq<Json>,
    depth: nat,
    fmt: StringFormat,
)
    requires
        0 <= i <= n,
        0 <= table,
        table + 4 * n <= r.len(),
        forall|j: int| i <= j < n ==> value_kind(#[trigger] le32(r, table + 4 * j)) >= 6,
    ensures
        decode_items(r, table, n, size, i, acc, depth, fmt) == Ok::<Seq<Json>, DecodeError>(
            acc + Seq::new((n - i) as nat, |k: int| Json::Undefined),
        ),
    decreases n - i,
{
    if i < n {
        assert(value_kind(le32(r, table + 4 * i)) >= 6);
        unknown_kind_is_undefined(r, le32(r, table + 4 * i), size, depth, fmt);
        unknown_entries_keep_array(r, table, n, size, i + 1, acc.push(Json::Undefined), depth, fmt);
        assert(acc.push(Json::Undefined) + Seq::new((n - i - 1) as nat, |k: int| Json::Undefined)
            =~= acc + Seq::new((n - i) as nat, |k: int| Json::Undefined));
    } else {
        assert(acc + Seq::new(0, |k: int| Json::Undefined) =~= acc);
    }
}

proof fn lemma_members_keep_keys_distinct(
    r: Seq<u8>,
    table: int,
    n: u32,
    size: u32,
    i: int,
    acc: Seq<(Seq<char>, Json)>,
    depth: nat,
    fmt: StringFormat,
)
    requires
        keys_distinct(acc),
    ensures
        decode_members(r, table, n, size, i, acc, depth, fmt) matches Ok(m) ==> keys_distinct(m),
    decreases n - i,
{
    if 0 <= i < n {
        if let Ok(kv) = crate::decode::decode_member(r, table + 4 * i, size, depth, fmt) {
            lemma_insert_member(acc, kv.0, kv.1);
            lemma_members_keep_keys_distinct(
                r,
                table,
                n,
                size,
                i + 1,
                crate::elements::insert_member(acc, kv.0, kv.1),
                depth,
                fmt,
            );
        }
    }
}

/// An object that decodes binds each key once, however often the key occurs
/// among its entries.
pub proof fn decoded_keys_are_distinct(r: Seq<u8>, depth: nat, fmt: StringFormat)
    ensures
        decode_element(r, depth, fmt) matches Ok(Json::Object(n, m)) ==> keys_distinct(m),
{
    if r.len() >= 12 {
        lemma_members_keep_keys_distinct(
            r,
            le32(r, 8) as int,
            le32(r, 4) / 2,
            le32(r, 0),
            0,
            Seq::empty(),
            depth,
            fmt,
        );
    }
}

} // verus!
