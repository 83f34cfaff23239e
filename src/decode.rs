//! Containers, offset tables and packed value descriptors.
use vstd::prelude::*;

use crate::bytes::{le32, le64, read_u32_le, read_u64_le};
use crate::elements::{insert_member, values_view, Json, JsonValue, Members, Object};
use crate::error::DecodeError;
use crate::number::{double_bits, int_to_double_bits};
use crate::text::{read_string, read_text, StringFormat};

verus! {

/// The type tags a descriptor can carry; the remaining values of its three
/// bits are not recognised and decode to `Undefined`.
pub const KIND_NULL: u32 = 0;
pub const KIND_BOOL: u32 = 1;
pub const KIND_DOUBLE: u32 = 2;
pub const KIND_STRING: u32 = 3;
pub const KIND_ARRAY: u32 = 4;
pub const KIND_OBJECT: u32 = 5;

/// The kind of value a descriptor holds: its low three bits.
pub open spec fn value_kind(d: u32) -> u32 {
    d % 8
}

/// Bit 3: a number is stored inline, as a small unsigned integer.
pub open spec fn inline_flag(d: u32) -> bool {
    (d / 8) % 2 == 1
}

/// Bit 4: the string that goes with the descriptor uses the one-byte encoding.
pub open spec fn latin_flag(d: u32) -> bool {
    (d / 16) % 2 == 1
}

/// Bits 5 and up: an inline integer, or an offset into the container.
pub open spec fn payload(d: u32) -> u32 {
    d / 32
}

/// What a decode returns, as a mathematical value.
pub open spec fn value_result(r: Result<JsonValue, DecodeError>) -> Result<Json, DecodeError> {
    match r {
        Ok(v) => Ok(v@),
        Err(e) => Err(e),
    }
}

/// The container whose header starts `r`, with `depth` more levels of nesting
/// allowed below it.
pub open spec fn decode_element(r: Seq<u8>, depth: nat, fmt: StringFormat) -> Result<
    Json,
    DecodeError,
>
    decreases depth, 2int, 0int,
{
    if r.len() < 12 {
        Err(DecodeError::TruncatedData)
    } else {
        let size = le32(r, 0);
        let header = le32(r, 4);
        let table = le32(r, 8) as int;
        let n = header / 2;
        if table > r.len() {
            Err(DecodeError::TruncatedData)
        } else if (r.len() - table) / 4 < n {
            Err(DecodeError::SizeMismatch)
        } else if header % 2 == 1 {
            match decode_members(r, table, n, size, 0, Seq::empty(), depth, fmt) {
                Ok(m) => Ok(Json::Object(n, m)),
                Err(e) => Err(e),
            }
        } else {
            match decode_items(r, table, n, size, 0, Seq::empty(), depth, fmt) {
                Ok(v) => Ok(Json::Array(v)),
                Err(e) => Err(e),
            }
        }
    }
}

/// The array entries `i..n`, appended to `acc`: each table entry is a descriptor.
pub open spec fn decode_items(
    r: Seq<u8>,
    table: int,
    n: u32,
    size: u32,
    i: int,
    acc: Seq<Json>,
    depth: nat,
    fmt: StringFormat,
) -> Result<Seq<Json>, DecodeError>
    decreases depth, 1int, n - i,
{
    if i < 0 || i >= n {
        Ok(acc)
    } else {
        match decode_value(r, le32(r, table + 4 * i), size, depth, fmt) {
            Ok(v) => decode_items(r, table, n, size, i + 1, acc.push(v), depth, fmt),
            Err(e) => Err(e),
        }
    }
}

/// The object entries `i..n`, bound into `acc` in order, a later key
/// replacing an earlier one.
pub open spec fn decode_members(
    r: Seq<u8>,
    table: int,
    n: u32,
    size: u32,
    i: int,
    acc: Seq<(Seq<char>, Json)>,
    depth: nat,
    fmt: StringFormat,
) -> Result<Seq<(Seq<char>, Json)>, DecodeError>
    decreases depth, 1int, n - i,
{
    if i < 0 || i >= n {
        Ok(acc)
    } else {
        match decode_member(r, table + 4 * i, size, depth, fmt) {
            Ok(kv) => decode_members(
                r,
                table,
                n,
                size,
                i + 1,
                insert_member(acc, kv.0, kv.1),
                depth,
                fmt,
            ),
            Err(e) => Err(e),
        }
    }
}

/// The object entry that the table entry at `r[at]` points to: a descriptor,
/// then the key, then what the descriptor refers to.
pub open spec fn decode_member(r: Seq<u8>, at: int, size: u32, depth: nat, fmt: StringFormat) -> Result<
    (Seq<char>, Json),
    DecodeError,
>
    decreases depth, 0int, 1int,
{
    let off = le32(r, at) as int;
    if off + 4 > r.len() {
        Err(DecodeError::TruncatedData)
    } else {
        let d = le32(r, off);
        match read_text(r, off + 4, latin_flag(d), fmt) {
            Ok(k) => match decode_value(r, d, size, depth, fmt) {
                Ok(v) => Ok((k, v)),
                Err(e) => Err(e),
            },
            Err(e) => Err(e),
        }
    }
}

/// The value that descriptor `d` stands for, inside a container held by `r`
/// whose header declared `size` bytes.
pub open spec fn decode_value(r: Seq<u8>, d: u32, size: u32, depth: nat, fmt: StringFormat) -> Result<
    Json,
    DecodeError,
>
    decreases depth, 0int, 0int,
{
    let kind = value_kind(d);
    let p = payload(d) as int;
    if kind == KIND_NULL {
        Ok(Json::Null)
    } else if kind == KIND_BOOL {
        Ok(Json::Bool(p != 0))
    } else if kind == KIND_DOUBLE {
        if inline_flag(d) {
            Ok(Json::Number(double_bits(p as nat) as u64))
        } else if p + 8 > r.len() {
            Err(DecodeError::TruncatedData)
        } else {
            Ok(Json::Number(le64(r, p)))
        }
    } else if kind == KIND_STRING {
        match read_text(r, p, latin_flag(d), fmt) {
            Ok(t) => Ok(Json::Str(t)),
            Err(e) => Err(e),
        }
    } else if kind == KIND_ARRAY || kind == KIND_OBJECT {
        if size > r.len() || p > size {
            Err(DecodeError::TruncatedData)
        } else if depth == 0 {
            Err(DecodeError::FormatError)
        } else {
            decode_element(r.subrange(p, size as int), (depth - 1) as nat, fmt)
        }
    } else {
        Ok(Json::Undefined)
    }
}

/// Decodes the container whose header starts `data`.
pub fn load_element(data: &[u8], depth: u32, fmt: StringFormat) -> (r: Result<JsonValue, DecodeError>)
    ensures
        value_result(r) == decode_element(data@, depth as nat, fmt),
    decreases depth, 2int, 0int,
{
    let len = data.len();
    if len < 12 {
        return Err(DecodeError::TruncatedData);
    }
    let size = read_u32_le(data, 0);
    let header = read_u32_le(data, 4);
    let table = read_u32_le(data, 8) as usize;
    let n = header / 2;
    if table > len {
        return Err(DecodeError::TruncatedData);
    }
    if (len - table) / 4 < n as usize {
        return Err(DecodeError::SizeMismatch);
    }
    if header % 2 == 1 {
        load_object(data, table, n, size, depth, fmt)
    } else {
        load_array(data, table, n, size, depth, fmt)
    }
}

/// Decodes an array whose offset table, at `data[table]`, holds `n` descriptors.
fn load_array(data: &[u8], table: usize, n: u32, size: u32, depth: u32, fmt: StringFormat) -> (r:
    Result<JsonValue, DecodeError>)
    requires
        table + 4 * n <= data@.len(),
    ensures
        value_result(r) == match decode_items(data@, table as int, n, size, 0, Seq::empty(), depth as nat, fmt) {
            Ok(v) => Ok(Json::Array(v)),
            Err(e) => Err::<Json, DecodeError>(e),
        },
    decreases depth, 1int, 0int,
{
    let len = data.len();
    let mut values: Vec<JsonValue> = Vec::new();
    let mut i: u32 = 0;
    assert(values_view(values@) =~= Seq::<Json>::empty());
    while i < n
        invariant
            i <= n,
            len == data@.len(),
            table + 4 * n <= len,
            decode_items(data@, table as int, n, size, 0, Seq::empty(), depth as nat, fmt)
                == decode_items(data@, table as int, n, size, i as int, values_view(values@), depth as nat, fmt),
        decreases n - i,
    {
        let d = read_u32_le(data, table + 4 * (i as usize));
        let v = match load_value(data, d, size, depth, fmt) {
            Ok(v) => v,
            Err(e) => {
                return Err(e);
            },
        };
        let ghost before = values@;
        values.push(v);
        assert(values@.drop_last() =~= before);
        i += 1;
    }
    Ok(JsonValue::Array(values))
}

/// Decodes an object whose offset table, at `data[table]`, holds `n` entry offsets.
fn load_object(data: &[u8], table: usize, n: u32, size: u32, depth: u32, fmt: StringFormat) -> (r:
    Result<JsonValue, DecodeError>)
    requires
        table + 4 * n <= data@.len(),
    ensures
        value_result(r) == match decode_members(data@, table as int, n, size, 0, Seq::empty(), depth as nat, fmt) {
            Ok(m) => Ok(Json::Object(n, m)),
            Err(e) => Err::<Json, DecodeError>(e),
        },
    decreases depth, 1int, 0int,
{
    let len = data.len();
    let mut members = Members::new();
    let mut i: u32 = 0;
    while i < n
        invariant
            i <= n,
            len == data@.len(),
            table + 4 * n <= len,
            decode_members(data@, table as int, n, size, 0, Seq::empty(), depth as nat, fmt)
                == decode_members(data@, table as int, n, size, i as int, members@, depth as nat, fmt),
        decreases n - i,
    {
        let at = table + 4 * (i as usize);
        let off = read_u32_le(data, at) as usize;
        let ghost entry = decode_member(data@, at as int, size, depth as nat, fmt);
        if off > len || len - off < 4 {
            assert(entry == Err::<(Seq<char>, Json), DecodeError>(DecodeError::TruncatedData));
            return Err(DecodeError::TruncatedData);
        }
        let d = read_u32_le(data, off);
        let key = match read_string(data, off + 4, d / 16 % 2 == 1, fmt) {
            Ok(k) => k,
            Err(e) => {
                assert(entry == Err::<(Seq<char>, Json), DecodeError>(e));
                return Err(e);
            },
        };
        let value = match load_value(data, d, size, depth, fmt) {
            Ok(v) => v,
            Err(e) => {
                assert(entry == Err::<(Seq<char>, Json), DecodeError>(e));
                return Err(e);
            },
        };
        assert(entry == Ok::<(Seq<char>, Json), DecodeError>((key@, value@)));
        members.insert(key, value);
        i += 1;
    }
    Ok(JsonValue::Object(Object { size: n, values: members }))
}

/// Decodes the value that descriptor `d` stands for, inside the container
/// held by `data` whose header declared `size` bytes.
pub fn load_value(data: &[u8], d: u32, size: u32, depth: u32, fmt: StringFormat) -> (r: Result<
    JsonValue,
    DecodeError,
>)
    ensures
        value_result(r) == decode_value(data@, d, size, depth as nat, fmt),
    decreases depth, 0int, 0int,
{
    let len = data.len();
    let kind = d % 8;
    let p = d / 32;
    if kind == KIND_NULL {
        Ok(JsonValue::Null)
    } else if kind == KIND_BOOL {
        Ok(JsonValue::Bool(p != 0))
    } else if kind == KIND_DOUBLE {
        if d / 8 % 2 == 1 {
            Ok(JsonValue::Number(int_to_double_bits(p)))
        } else if p as usize > len || len - (p as usize) < 8 {
            Err(DecodeError::TruncatedData)
        } else {
            Ok(JsonValue::Number(read_u64_le(data, p as usize)))
        }
    } else if kind == KIND_STRING {
        match read_string(data, p as usize, d / 16 % 2 == 1, fmt) {
            Ok(t) => Ok(JsonValue::String(t)),
            Err(e) => Err(e),
        }
    } else if kind == KIND_ARRAY || kind == KIND_OBJECT {
        if size as usize > len || p > size {
            Err(DecodeError::TruncatedData)
        } else if depth == 0 {
            Err(DecodeError::FormatError)
        } else {
            load_element(&data[p as usize..size as usize], depth - 1, fmt)
        }
    } else {
        Ok(JsonValue::Undefined)
    }
}

} // verus!
