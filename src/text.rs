//! Length-prefixed strings, in the one-byte "latin" encoding or in UTF-16.
use vstd::prelude::*;
use vstd::utf8::is_scalar;

use crate::bytes::{be16, le16, le32, read_u16_be, read_u16_le, read_u32_le};
use crate::error::DecodeError;

verus! {

/// How strings are laid out. The format has been seen with both length widths
/// and both UTF-16 byte orders; `standard` is the layout this reader expects
/// unless told otherwise.
#[derive(Debug, Clone, Copy, PartialEq, Eq, Structural)]
pub struct StringFormat {
    /// The length field is 32 bits wide rather than 16.
    pub wide_length: bool,
    /// UTF-16 code units are stored high byte first.
    pub big_endian_units: bool,
    /// An unpaired surrogate becomes U+FFFD instead of failing the decode.
    pub lossy: bool,
}

impl StringFormat {
    /// A 16-bit length, little-endian code units, strict UTF-16.
    pub fn standard() -> (r: StringFormat)
        ensures
            r == (StringFormat { wide_length: false, big_endian_units: false, lossy: false }),
    {
        StringFormat { wide_length: false, big_endian_units: false, lossy: false }
    }
}

/// One character per byte, the byte being the code point.
pub open spec fn latin1_chars(b: Seq<u8>) -> Seq<char> {
    Seq::new(b.len(), |i: int| (b[i] as u32) as char)
}

/// The code units held by `b`, two bytes each.
pub open spec fn code_units(b: Seq<u8>, big_endian: bool) -> Seq<u16> {
    Seq::new(
        b.len() / 2,
        |i: int|
            if big_endian {
                be16(b, 2 * i)
            } else {
                le16(b, 2 * i)
            },
    )
}

pub open spec fn is_high_surrogate(u: u16) -> bool {
    0xD800 <= u <= 0xDBFF
}

pub open spec fn is_low_surrogate(u: u16) -> bool {
    0xDC00 <= u <= 0xDFFF
}

/// The code point that a surrogate pair stands for.
pub open spec fn pair_code_point(hi: u16, lo: u16) -> u32 {
    (0x10000 + (hi - 0xD800) * 0x400 + (lo - 0xDC00)) as u32
}

pub open spec fn prepend(c: char, rest: Option<Seq<char>>) -> Option<Seq<char>> {
    match rest {
        Some(t) => Some(seq![c] + t),
        None => None,
    }
}

/// The text that code units `u[i..]` encode; `None` where one is an unpaired
/// surrogate, unless `lossy`, which puts U+FFFD in its place.
pub open spec fn utf16_from(u: Seq<u16>, i: int, lossy: bool) -> Option<Seq<char>>
    decreases u.len() - i,
{
    if i < 0 || i >= u.len() {
        Some(Seq::empty())
    } else if !is_high_surrogate(u[i]) && !is_low_surrogate(u[i]) {
        prepend((u[i] as u32) as char, utf16_from(u, i + 1, lossy))
    } else if is_high_surrogate(u[i]) && i + 1 < u.len() && is_low_surrogate(u[i + 1]) {
        prepend(pair_code_point(u[i], u[i + 1]) as char, utf16_from(u, i + 2, lossy))
    } else if lossy {
        prepend('\u{FFFD}', utf16_from(u, i + 1, lossy))
    } else {
        None
    }
}

/// The text that code units `u` encode.
pub open spec fn utf16_text(u: Seq<u16>, lossy: bool) -> Option<Seq<char>> {
    utf16_from(u, 0, lossy)
}

/// Where the characters of a string whose length field stands at `at` begin.
pub open spec fn text_start(at: int, fmt: StringFormat) -> int {
    if fmt.wide_length {
        at + 4
    } else {
        at + 2
    }
}

/// The value of the length field at `at`.
pub open spec fn text_length(r: Seq<u8>, at: int, fmt: StringFormat) -> int {
    if fmt.wide_length {
        le32(r, at) as int
    } else {
        le16(r, at) as int
    }
}

/// The string whose length field stands at `r[at]`.
pub open spec fn read_text(r: Seq<u8>, at: int, latin: bool, fmt: StringFormat) -> Result<
    Seq<char>,
    DecodeError,
> {
    let body = text_start(at, fmt);
    if body > r.len() {
        Err(DecodeError::TruncatedData)
    } else {
        let n = text_length(r, at, fmt);
        if latin {
            if body + n > r.len() {
                Err(DecodeError::TruncatedData)
            } else {
                Ok(latin1_chars(r.subrange(body, body + n)))
            }
        } else {
            if body + 2 * n > r.len() {
                Err(DecodeError::TruncatedData)
            } else {
                match utf16_text(code_units(r.subrange(body, body + 2 * n), fmt.big_endian_units), fmt.lossy) {
                    Some(t) => Ok(t),
                    None => Err(DecodeError::InvalidEncoding),
                }
            }
        }
    }
}

/// Relies on `char::from_u32`: it gives the char exactly for Unicode scalar values.
#[verifier::external_body]
fn char_from_u32(v: u32) -> (r: Option<char>)
    ensures
        is_scalar(v) ==> r == Some(v as char),
        !is_scalar(v) ==> r is None,
{
    char::from_u32(v)
}

/// Relies on `String`'s `FromIterator<char>`: the string holds the chars in order.
#[verifier::external_body]
fn string_from_chars(chars: Vec<char>) -> (r: String)
    ensures
        r@ == chars@,
{
    chars.into_iter().collect()
}

/// Characters `p` followed by the text `rest`, if there is one.
pub open spec fn after(p: Seq<char>, rest: Option<Seq<char>>) -> Option<Seq<char>> {
    match rest {
        Some(t) => Some(p + t),
        None => None,
    }
}

proof fn lemma_after_prepend(p: Seq<char>, c: char, rest: Option<Seq<char>>)
    ensures
        after(p, prepend(c, rest)) == after(p.push(c), rest),
{
    if let Some(t) = rest {
        assert(p + (seq![c] + t) =~= p.push(c) + t);
    }
}

/// Decodes one-byte characters: each byte is the code point of one character.
pub fn decode_latin1(b: &[u8]) -> (r: Vec<char>)
    ensures
        r@ == latin1_chars(b@),
        r@.len() == b@.len(),
        forall|i: int| 0 <= i < b@.len() ==> #[trigger] r@[i] as u32 == b@[i] as u32,
{
    let n = b.len();
    let mut out: Vec<char> = Vec::new();
    let mut i: usize = 0;
    while i < n
        invariant
            n == b@.len(),
            i <= n,
            out@ == latin1_chars(b@).subrange(0, i as int),
        decreases n - i,
    {
        out.push(b[i] as char);
        i += 1;
        assert(out@ =~= latin1_chars(b@).subrange(0, i as int));
    }
    assert(out@ =~= latin1_chars(b@));
    proof {
        assert forall|i: int| 0 <= i < b@.len() implies #[trigger] out@[i] as u32 == b@[i] as u32 by {
            vstd::utf8::char_u32_cast(out@[i], out@[i] as u32);
        }
    }
    out
}

/// Pairs bytes into code units; a trailing odd byte is ignored.
pub fn code_units_of(b: &[u8], big_endian: bool) -> (r: Vec<u16>)
    ensures
        r@ == code_units(b@, big_endian),
        r@.len() == b@.len() / 2,
        forall|i: int|
            0 <= i < b@.len() / 2 ==> #[trigger] r@[i] == if big_endian {
                (256 * b@[2 * i] + b@[2 * i + 1]) as u16
            } else {
                (b@[2 * i] + 256 * b@[2 * i + 1]) as u16
            },
{
    let len = b.len();
    let n = len / 2;
    let mut out: Vec<u16> = Vec::new();
    let mut i: usize = 0;
    while i < n
        invariant
            len == b@.len(),
            n == len / 2,
            i <= n,
            out@ == code_units(b@, big_endian).subrange(0, i as int),
        decreases n - i,
    {
        let u = if big_endian {
            read_u16_be(b, 2 * i)
        } else {
            read_u16_le(b, 2 * i)
        };
        out.push(u);
        i += 1;
        assert(out@ =~= code_units(b@, big_endian).subrange(0, i as int));
    }
    assert(out@ =~= code_units(b@, big_endian));
    out
}

/// Decodes UTF-16 code units into characters.
pub fn decode_utf16(u: &[u16], lossy: bool) -> (r: Option<Vec<char>>)
    ensures
        match r {
            Some(v) => utf16_text(u@, lossy) == Some(v@),
            None => utf16_text(u@, lossy) is None,
        },
{
    let n = u.len();
    let mut out: Vec<char> = Vec::new();
    let mut i: usize = 0;
    assert(out@ + seq![] =~= seq![]);
    while i < n
        invariant
            n == u@.len(),
            i <= n,
            utf16_text(u@, lossy) == after(out@, utf16_from(u@, i as int, lossy)),
        decreases n - i,
    {
        let c = u[i];
        if c < 0xD800 || c > 0xDFFF {
            let ch = match char_from_u32(c as u32) {
                Some(ch) => ch,
                None => {
                    return None;
                },
            };
            proof {
                lemma_after_prepend(out@, ch, utf16_from(u@, i + 1, lossy));
            }
            out.push(ch);
            i += 1;
        } else if c <= 0xDBFF && i + 1 < n && u[i + 1] >= 0xDC00 && u[i + 1] <= 0xDFFF {
            let lo = u[i + 1];
            let v: u32 = 0x10000 + (c as u32 - 0xD800) * 0x400 + (lo as u32 - 0xDC00);
            assert(v == pair_code_point(c, lo));
            let ch = match char_from_u32(v) {
                Some(ch) => ch,
                None => {
                    return None;
                },
            };
            proof {
                lemma_after_prepend(out@, ch, utf16_from(u@, i + 2, lossy));
            }
            out.push(ch);
            i += 2;
        } else if lossy {
            proof {
                lemma_after_prepend(out@, '\u{FFFD}', utf16_from(u@, i + 1, lossy));
            }
            out.push('\u{FFFD}');
            i += 1;
        } else {
            return None;
        }
    }
    assert(out@ + seq![] =~= out@);
    Some(out)
}

/// Reads the string whose length field stands at `data[at]`, in the
/// one-byte encoding if `latin`, else in UTF-16.
pub fn read_string(data: &[u8], at: usize, latin: bool, fmt: StringFormat) -> (r: Result<
    String,
    DecodeError,
>)
    ensures
        match r {
            Ok(s) => read_text(data@, at as int, latin, fmt) == Ok::<Seq<char>, DecodeError>(s@),
            Err(e) => read_text(data@, at as int, latin, fmt) == Err::<Seq<char>, DecodeError>(e),
        },
{
    let len = data.len();
    let width: usize = if fmt.wide_length { 4 } else { 2 };
    if at > len || len - at < width {
        return Err(DecodeError::TruncatedData);
    }
    let n: usize = if fmt.wide_length {
        read_u32_le(data, at) as usize
    } else {
        read_u16_le(data, at) as usize
    };
    let body = at + width;
    if latin {
        if len - body < n {
            return Err(DecodeError::TruncatedData);
        }
        let chars = decode_latin1(&data[body..body + n]);
        Ok(string_from_chars(chars))
    } else {
        if (len - body) / 2 < n {
            return Err(DecodeError::TruncatedData);
        }
        let units = code_units_of(&data[body..body + 2 * n], fmt.big_endian_units);
        match decode_utf16(units.as_slice(), fmt.lossy) {
            Some(chars) => Ok(string_from_chars(chars)),
            None => Err(DecodeError::InvalidEncoding),
        }
    }
}

} // verus!
