use genie_scx::bytes::ByteReader;
use genie_scx::util::{
    read_str, write_i32_str, write_opt_i32_str, write_opt_str, write_str, DecodeStringError,
    EncodeStringError, ReadStringError, WriteStringError,
};

#[test]
fn read_str_cuts_at_nul() {
    let mut input = ByteReader::new(b"abc\0xyz!".to_vec());
    assert_eq!(read_str(&mut input, 6), Ok(Some("abc".to_string())));
    assert_eq!(input.pos, 6);
    assert_eq!(input.remaining(), 2);
}

#[test]
fn read_str_without_nul_takes_the_field() {
    let mut input = ByteReader::new(b"abcd".to_vec());
    assert_eq!(read_str(&mut input, 4), Ok(Some("abcd".to_string())));
}

#[test]
fn read_str_empty_is_absent() {
    let mut input = ByteReader::new(vec![0, 0, 0]);
    assert_eq!(read_str(&mut input, 3), Ok(None));
    assert_eq!(input.pos, 3);
    let mut input = ByteReader::new(vec![1]);
    assert_eq!(read_str(&mut input, 0), Ok(None));
    assert_eq!(input.pos, 0);
}

#[test]
fn read_str_decodes_code_page() {
    let mut input = ByteReader::new(vec![0x48, 0xe9, 0x80, 0]);
    assert_eq!(read_str(&mut input, 4), Ok(Some("H\u{e9}\u{20ac}".to_string())));
}

#[test]
fn read_str_past_end() {
    let mut input = ByteReader::new(b"ab".to_vec());
    assert_eq!(read_str(&mut input, 3), Err(ReadStringError::UnexpectedEof));
    assert_eq!(input.pos, 0);
    let _ = ReadStringError::DecodeStringError(DecodeStringError);
}

#[test]
fn write_str_layout() {
    let mut out = Vec::new();
    assert_eq!(write_str(&mut out, "abc"), Ok(()));
    assert_eq!(out, vec![4, 0, b'a', b'b', b'c', 0]);
}

#[test]
fn write_str_encodes_code_page() {
    let mut out = Vec::new();
    assert_eq!(write_str(&mut out, "\u{e9}\u{20ac}"), Ok(()));
    assert_eq!(out, vec![3, 0, 0xe9, 0x80, 0]);
}

#[test]
fn write_str_unencodable() {
    let mut out = vec![7];
    assert_eq!(
        write_str(&mut out, "\u{65e5}"),
        Err(WriteStringError::EncodeStringError(EncodeStringError))
    );
    assert_eq!(out, vec![7]);
    assert_eq!(
        write_i32_str(&mut out, "a\u{65e5}"),
        Err(WriteStringError::EncodeStringError(EncodeStringError))
    );
    assert_eq!(out, vec![7]);
}

#[test]
fn write_i32_str_layout() {
    let mut out = Vec::new();
    assert_eq!(write_i32_str(&mut out, "hi"), Ok(()));
    assert_eq!(out, vec![3, 0, 0, 0, b'h', b'i', 0]);
}

#[test]
fn write_opt_str_none_is_bare_prefix() {
    let mut out = Vec::new();
    assert_eq!(write_opt_str(&mut out, &None), Ok(()));
    assert_eq!(out, vec![0, 0]);
    let mut out = Vec::new();
    assert_eq!(write_opt_i32_str(&mut out, &None), Ok(()));
    assert_eq!(out, vec![0, 0, 0, 0]);
    let mut out = Vec::new();
    assert_eq!(write_opt_str(&mut out, &Some("x".to_string())), Ok(()));
    assert_eq!(out, vec![2, 0, b'x', 0]);
    let mut out = Vec::new();
    assert_eq!(write_opt_i32_str(&mut out, &Some("x".to_string())), Ok(()));
    assert_eq!(out, vec![2, 0, 0, 0, b'x', 0]);
}

#[test]
fn string_round_trip() {
    for s in ["Genghis Khan", "Caf\u{e9} \u{20ac}5", "x", "\u{ff}\u{fe}ab"] {
        let mut out = Vec::new();
        write_str(&mut out, s).unwrap();
        let len = u16::from_le_bytes([out[0], out[1]]) as usize;
        let mut input = ByteReader::new(out[2..].to_vec());
        assert_eq!(read_str(&mut input, len), Ok(Some(s.to_string())));
        assert_eq!(input.remaining(), 0);
    }
}
