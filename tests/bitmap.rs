use genie_scx::bitmap::{Bitmap, BitmapColor, BitmapInfo, INFO_LEN};
use genie_scx::bytes::{ByteReader, ReadError};

fn sample_info() -> BitmapInfo {
    let mut colors = Vec::new();
    for i in 0..256u32 {
        colors.push(BitmapColor(i as u8, (i * 3) as u8, (255 - i) as u8, 0));
    }
    BitmapInfo {
        size: 40,
        width: 3,
        height: -2,
        planes: 1,
        bit_count: 8,
        compression: 0,
        size_image: 8,
        xpels_per_meter: 2835,
        ypels_per_meter: -2835,
        clr_used: 256,
        clr_important: 7,
        colors,
    }
}

fn sample_bitmap() -> Bitmap {
    Bitmap {
        own_memory: 1,
        width: 3,
        height: 2,
        orientation: 0xfffe,
        info: sample_info(),
        pixels: vec![1, 2, 3, 0, 4, 5, 6, 0],
    }
}

#[test]
fn color_layout() {
    let mut out = Vec::new();
    BitmapColor(1, 2, 3, 4).write_to(&mut out);
    assert_eq!(out, vec![1, 2, 3, 4]);
    let mut input = ByteReader::new(vec![9, 8, 7, 6, 5]);
    assert_eq!(BitmapColor::from(&mut input), Ok(BitmapColor(9, 8, 7, 6)));
    assert_eq!(BitmapColor::from(&mut input), Err(ReadError::UnexpectedEof));
}

#[test]
fn info_layout() {
    let mut out = Vec::new();
    sample_info().write_to(&mut out);
    assert_eq!(out.len(), INFO_LEN);
    assert_eq!(&out[0..8], &[40, 0, 0, 0, 3, 0, 0, 0]);
    assert_eq!(&out[8..12], &[0xfe, 0xff, 0xff, 0xff]);
    assert_eq!(&out[40..44], &[0, 0, 255, 0]);
    let mut input = ByteReader::new(out);
    assert_eq!(BitmapInfo::from(&mut input), Ok(sample_info()));
}

#[test]
fn bitmap_round_trip() {
    let b = sample_bitmap();
    let mut out = Vec::new();
    b.write_to(&mut out);
    assert_eq!(out.len(), 14 + INFO_LEN + 8);
    assert_eq!(&out[0..14], &[1, 0, 0, 0, 3, 0, 0, 0, 2, 0, 0, 0, 0xfe, 0xff]);
    out.push(42);
    let mut input = ByteReader::new(out);
    assert_eq!(Bitmap::from(&mut input), Ok(Some(sample_bitmap())));
    assert_eq!(input.remaining(), 1);
}

#[test]
fn bitmap_pixel_rows_are_padded() {
    let mut b = sample_bitmap();
    b.width = 5;
    b.pixels = vec![0; 16];
    let mut out = Vec::new();
    b.write_to(&mut out);
    let mut input = ByteReader::new(out);
    let read = Bitmap::from(&mut input).unwrap().unwrap();
    assert_eq!(read.pixels.len(), 16);
    assert_eq!(input.remaining(), 0);
}

#[test]
fn empty_bitmap_is_absent() {
    let mut out = Vec::new();
    Bitmap::write_empty(&mut out);
    assert_eq!(out, vec![0; 14]);
    out.extend_from_slice(&[1, 2, 3]);
    let mut input = ByteReader::new(out);
    assert_eq!(Bitmap::from(&mut input), Ok(None));
    assert_eq!(input.pos, 14);
}

#[test]
fn zero_dimension_is_absent() {
    let mut bytes = vec![1, 0, 0, 0, 5, 0, 0, 0, 0, 0, 0, 0, 1, 0];
    let mut input = ByteReader::new(bytes.clone());
    assert_eq!(Bitmap::from(&mut input), Ok(None));
    bytes[4] = 0;
    bytes[8] = 5;
    let mut input = ByteReader::new(bytes);
    assert_eq!(Bitmap::from(&mut input), Ok(None));
}

#[test]
fn truncated_bitmap() {
    let mut input = ByteReader::new(vec![0; 13]);
    assert_eq!(Bitmap::from(&mut input), Err(ReadError::UnexpectedEof));
    let mut out = Vec::new();
    sample_bitmap().write_to(&mut out);
    out.pop();
    let mut input = ByteReader::new(out);
    assert_eq!(Bitmap::from(&mut input), Err(ReadError::UnexpectedEof));
}
