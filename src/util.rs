//! Strings in the legacy WINDOWS-1252 code page: NUL-terminated on the wire, behind a
//! little-endian length prefix of 16 or 32 bits.
use crate::bytes::{u16_le_bytes, u32_le_bytes, write_all, write_u16, write_u32, ByteReader};
use encoding_rs::WINDOWS_1252;
use vstd::prelude::*;

verus! {

/// What WINDOWS-1252 decoding makes of `b`; `None` when some byte is outside the code page.
pub uninterp spec fn windows_1252_decode(b: Seq<u8>) -> Option<Seq<char>>;

/// What WINDOWS-1252 encoding makes of `s`; `None` when some character has no code in the
/// code page.
pub uninterp spec fn windows_1252_encode(s: Seq<char>) -> Option<Seq<u8>>;

/// What a single-byte code page that agrees with ASCII promises of `b`, the encoding of `s`:
/// one byte per character, the zero byte exactly for NUL, and decoding gives `s` back.
pub open spec fn single_byte_code(s: Seq<char>, b: Seq<u8>) -> bool {
    &&& windows_1252_decode(b) == Some(s)
    &&& b.len() == s.len()
    &&& forall|i: int| 0 <= i < s.len() ==> (b[i] == 0 <==> s[i] == '\0')
}

/// Relies on `encoding_rs::Encoding::decode_without_bom_handling` on `WINDOWS_1252`: the
/// decoded text, and whether some byte was malformed.
#[verifier::external_body]
fn decode_windows_1252(bytes: &[u8]) -> (r: Option<String>)
    ensures
        windows_1252_decode(bytes@) == (match r {
            Some(t) => Some(t@),
            None => None::<Seq<char>>,
        }),
{
    let (text, failed) = WINDOWS_1252.decode_without_bom_handling(bytes);
    if failed {
        None
    } else {
        Some(text.into_owned())
    }
}

/// Relies on `encoding_rs::Encoding::encode` on `WINDOWS_1252`: the encoded bytes, and
/// whether some character was unmappable. WINDOWS-1252 is a single-byte encoding that agrees
/// with ASCII, so each character becomes one byte, only NUL becomes the zero byte, and
/// decoding the bytes gives the characters back.
#[verifier::external_body]
fn encode_windows_1252(s: &str) -> (r: Option<Vec<u8>>)
    ensures
        windows_1252_encode(s@) == (match r {
            Some(v) => Some(v@),
            None => None::<Seq<u8>>,
        }),
        r matches Some(v) ==> single_byte_code(s@, v@),
{
    let (bytes, _encoding, failed) = WINDOWS_1252.encode(s);
    if failed {
        None
    } else {
        Some(bytes.into_owned())
    }
}

/// Failed to decode a string as WINDOWS-1252.
#[derive(Debug, Clone, Copy, PartialEq, Eq, Structural)]
pub struct DecodeStringError;

/// Failed to encode a string as WINDOWS-1252.
#[derive(Debug, Clone, Copy, PartialEq, Eq, Structural)]
pub struct EncodeStringError;

/// Failed to read a string.
#[derive(Debug, Clone, Copy, PartialEq, Eq, Structural)]
pub enum ReadStringError {
    /// Failed to read a string because the bytes could not be decoded.
    DecodeStringError(DecodeStringError),
    /// Failed to read a string because the input ended first.
    UnexpectedEof,
}

/// Failed to write a string.
#[derive(Debug, Clone, Copy, PartialEq, Eq, Structural)]
pub enum WriteStringError {
    /// Failed to write a string because it could not be encoded.
    EncodeStringError(EncodeStringError),
}

/// The bytes of `b` before its first zero byte (all of `b` if it has none).
pub open spec fn until_nul(b: Seq<u8>) -> Seq<u8>
    decreases b.len(),
{
    if b.len() == 0 {
        b
    } else if b[0] == 0 {
        Seq::empty()
    } else {
        seq![b[0]] + until_nul(b.skip(1))
    }
}

/// The string held in a field of fixed length: its bytes up to the first NUL, decoded.
/// `Some(None)` for no string, `None` when the bytes do not decode.
pub open spec fn field_string(b: Seq<u8>) -> Option<Option<Seq<char>>> {
    if until_nul(b).len() == 0 {
        Some(None)
    } else {
        match windows_1252_decode(until_nul(b)) {
            Some(s) => Some(Some(s)),
            None => None,
        }
    }
}

/// The wire form of encoded string bytes `b` behind a 16-bit length prefix.
pub open spec fn str_wire_16(b: Seq<u8>) -> Seq<u8> {
    u16_le_bytes((b.len() + 1) as u16) + b + seq![0u8]
}

/// The wire form of encoded string bytes `b` behind a 32-bit length prefix.
pub open spec fn str_wire_32(b: Seq<u8>) -> Seq<u8> {
    u32_le_bytes((b.len() + 1) as u32) + b + seq![0u8]
}

proof fn lemma_until_nul_at(b: Seq<u8>, i: int)
    requires
        0 <= i <= b.len(),
        forall|j: int| 0 <= j < i ==> b[j] != 0,
        i == b.len() || b[i] == 0,
    ensures
        until_nul(b) == b.take(i),
    decreases b.len(),
{
    if b.len() == 0 {
        assert(b.take(i) =~= b);
    } else if b[0] == 0 {
        assert(b.take(i) =~= Seq::<u8>::empty());
    } else {
        lemma_until_nul_at(b.skip(1), i - 1);
        assert(seq![b[0]] + b.skip(1).take(i - 1) =~= b.take(i));
    }
}

/// Reads a string field of `length` bytes, cut at the first NUL; an empty field is no string.
pub fn read_str(input: &mut ByteReader, length: usize) -> (r: Result<Option<String>, ReadStringError>)
    requires
        old(input).wf(),
    ensures
        final(input).wf(),
        final(input).data@ == old(input).data@,
        length == 0 ==> r == Ok::<Option<String>, ReadStringError>(None) && final(input).rest()
            == old(input).rest(),
        length > old(input).rest().len() ==> r == Err::<Option<String>, _>(
            ReadStringError::UnexpectedEof,
        ) && final(input).rest() == old(input).rest(),
        0 < length <= old(input).rest().len() ==> final(input).rest() == old(input).rest().skip(
            length as int,
        ) && match field_string(old(input).rest().take(length as int)) {
            Some(Some(s)) => (r matches Ok(Some(t)) && t@ == s),
            Some(None) => r == Ok::<Option<String>, ReadStringError>(None),
            None => r == Err::<Option<String>, _>(
                ReadStringError::DecodeStringError(DecodeStringError),
            ),
        },
{
    if length == 0 {
        return Ok(None);
    }
    let mut bytes = match input.read_bytes(length) {
        Some(b) => b,
        None => return Err(ReadStringError::UnexpectedEof),
    };
    let mut end: usize = 0;
    while end < bytes.len() && bytes[end] != 0
        invariant
            end <= bytes@.len(),
            forall|j: int| 0 <= j < end ==> bytes@[j] != 0,
        decreases bytes@.len() - end,
    {
        end = end + 1;
    }
    proof {
        lemma_until_nul_at(bytes@, end as int);
    }
    if end == 0 {
        Ok(None)
    } else {
        bytes.truncate(end);
        assert(bytes@ == until_nul(old(input).rest().take(length as int)));
        match decode_windows_1252(bytes.as_slice()) {
            Some(text) => Ok(Some(text)),
            None => Err(ReadStringError::DecodeStringError(DecodeStringError)),
        }
    }
}

/// Writes a string behind a 16-bit length prefix (its byte length plus one) and a NUL.
pub fn write_str(output: &mut Vec<u8>, string: &str) -> (r: Result<(), WriteStringError>)
    requires
        string@.len() < 0x7fff,
    ensures
        match windows_1252_encode(string@) {
            Some(b) => r is Ok && final(output)@ == old(output)@ + str_wire_16(b),
            None => r == Err::<(), _>(WriteStringError::EncodeStringError(EncodeStringError))
                && final(output)@ == old(output)@,
        },
{
    let bytes = match encode_windows_1252(string) {
        Some(b) => b,
        None => return Err(WriteStringError::EncodeStringError(EncodeStringError)),
    };
    write_u16(output, (bytes.len() + 1) as u16);
    write_all(output, bytes.as_slice());
    output.push(0u8);
    assert(output@ =~= old(output)@ + str_wire_16(bytes@));
    Ok(())
}

/// Writes a string behind a 32-bit length prefix (its byte length plus one) and a NUL.
pub fn write_i32_str(output: &mut Vec<u8>, string: &str) -> (r: Result<(), WriteStringError>)
    requires
        string@.len() < 0x7fff_ffff,
    ensures
        match windows_1252_encode(string@) {
            Some(b) => r is Ok && final(output)@ == old(output)@ + str_wire_32(b),
            None => r == Err::<(), _>(WriteStringError::EncodeStringError(EncodeStringError))
                && final(output)@ == old(output)@,
        },
{
    let bytes = match encode_windows_1252(string) {
        Some(b) => b,
        None => return Err(WriteStringError::EncodeStringError(EncodeStringError)),
    };
    write_u32(output, (bytes.len() + 1) as u32);
    write_all(output, bytes.as_slice());
    output.push(0u8);
    assert(output@ =~= old(output)@ + str_wire_32(bytes@));
    Ok(())
}

/// Writes an optional string behind a 16-bit length prefix; no string is a zero prefix alone.
pub fn write_opt_str(output: &mut Vec<u8>, option: &Option<String>) -> (r: Result<
    (),
    WriteStringError,
>)
    requires
        option matches Some(s) ==> s@.len() < 0x7fff,
    ensures
        match option {
            None => r is Ok && final(output)@ == old(output)@ + u16_le_bytes(0),
            Some(s) => match windows_1252_encode(s@) {
                Some(b) => r is Ok && final(output)@ == old(output)@ + str_wire_16(b),
                None => r == Err::<(), _>(WriteStringError::EncodeStringError(EncodeStringError))
                    && final(output)@ == old(output)@,
            },
        },
{
    match option {
        Some(string) => write_str(output, string.as_str()),
        None => {
            write_u16(output, 0);
            Ok(())
        },
    }
}

/// Writes an optional string behind a 32-bit length prefix; no string is a zero prefix alone.
pub fn write_opt_i32_str(output: &mut Vec<u8>, option: &Option<String>) -> (r: Result<
    (),
    WriteStringError,
>)
    requires
        option matches Some(s) ==> s@.len() < 0x7fff_ffff,
    ensures
        match option {
            None => r is Ok && final(output)@ == old(output)@ + u32_le_bytes(0),
            Some(s) => match windows_1252_encode(s@) {
                Some(b) => r is Ok && final(output)@ == old(output)@ + str_wire_32(b),
                None => r == Err::<(), _>(WriteStringError::EncodeStringError(EncodeStringError))
                    && final(output)@ == old(output)@,
            },
        },
{
    match option {
        Some(string) => write_i32_str(output, string.as_str()),
        None => {
            write_u32(output, 0);
            Ok(())
        },
    }
}

/// Reading back what `write_str` wrote gives the string again: the prefix announces the
/// encoded bytes and their NUL, and the field holds the string, for every non-empty string
/// without NUL characters that the code page can represent (`b` being its encoding, with what
/// `encode_windows_1252` states of it).
pub proof fn lemma_string_round_trip(s: Seq<char>, b: Seq<u8>)
    requires
        windows_1252_encode(s) == Some(b),
        single_byte_code(s, b),
        0 < s.len() < 0x7fff,
        forall|i: int| 0 <= i < s.len() ==> s[i] != '\0',
    ensures
        str_wire_16(b).take(2) == u16_le_bytes((b.len() + 1) as u16),
        str_wire_16(b).skip(2) == b + seq![0u8],
        field_string(b + seq![0u8]) == Some(Some(s)),
        field_string(str_wire_16(b).skip(2)) == Some(Some(s)),
{
    let w = b + seq![0u8];
    lemma_until_nul_at(w, b.len() as int);
    assert(w.take(b.len() as int) =~= b);
    assert(str_wire_16(b).skip(2) =~= w);
    assert(str_wire_16(b).take(2) =~= u16_le_bytes((b.len() + 1) as u16));
}

} // verus!
