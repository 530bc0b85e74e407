//! Handles bitmap files embedded in the scenario file.
use crate::bytes::{
    i32_le_bytes, lemma_extend, lemma_i32_le_bytes_injective, lemma_u16_le_bytes_injective,
    lemma_u32_from_le_prefix, lemma_u32_le_bytes_injective, u16_le_bytes, u32_from_le,
    u32_le_bytes, write_all, write_i32, write_u16, write_u32, ByteReader, ReadError,
};
use vstd::prelude::*;

verus! {

/// Number of entries in a bitmap palette.
pub const PALETTE_SIZE: usize = 256;

/// Bytes of the bitmap header info: eleven scalar fields and the palette.
pub const INFO_LEN: usize = 1064;

/// A colour in the bitmap palette.
///
/// Components are red, green, blue, (reserved).
#[derive(Debug, Clone, Copy, PartialEq, Eq, Structural)]
pub struct BitmapColor(pub u8, pub u8, pub u8, pub u8);

/// The four bytes of a palette colour.
pub open spec fn color_bytes(c: BitmapColor) -> Seq<u8> {
    seq![c.0, c.1, c.2, c.3]
}

/// The bytes of a sequence of palette colours, in order.
pub open spec fn colors_bytes(cs: Seq<BitmapColor>) -> Seq<u8>
    decreases cs.len(),
{
    if cs.len() == 0 {
        Seq::empty()
    } else {
        colors_bytes(cs.drop_last()) + color_bytes(cs.last())
    }
}

proof fn lemma_colors_bytes_len(cs: Seq<BitmapColor>)
    ensures
        colors_bytes(cs).len() == 4 * cs.len(),
    decreases cs.len(),
{
    if cs.len() > 0 {
        lemma_colors_bytes_len(cs.drop_last());
    }
}

proof fn lemma_colors_bytes_injective(a: Seq<BitmapColor>, b: Seq<BitmapColor>)
    requires
        a.len() == b.len(),
        colors_bytes(a) == colors_bytes(b),
    ensures
        a == b,
    decreases a.len(),
{
    if a.len() > 0 {
        lemma_colors_bytes_len(a.drop_last());
        lemma_colors_bytes_len(b.drop_last());
        let n = 4 * (a.len() - 1);
        assert(colors_bytes(a.drop_last()) =~= colors_bytes(a).take(n));
        assert(colors_bytes(b.drop_last()) =~= colors_bytes(b).take(n));
        lemma_colors_bytes_injective(a.drop_last(), b.drop_last());
        assert(color_bytes(a.last()) =~= colors_bytes(a).skip(n));
        assert(color_bytes(b.last()) =~= colors_bytes(b).skip(n));
        assert(color_bytes(a.last())[0] == color_bytes(b.last())[0]);
        assert(color_bytes(a.last())[1] == color_bytes(b.last())[1]);
        assert(color_bytes(a.last())[2] == color_bytes(b.last())[2]);
        assert(color_bytes(a.last())[3] == color_bytes(b.last())[3]);
        assert(a =~= a.drop_last().push(a.last()));
        assert(b =~= b.drop_last().push(b.last()));
    } else {
        assert(a =~= b);
    }
}

impl BitmapColor {
    /// Read a bitmap palette colour entry.
    pub fn from(input: &mut ByteReader) -> (r: Result<Self, ReadError>)
        requires
            old(input).wf(),
        ensures
            final(input).wf(),
            final(input).data@ == old(input).data@,
            old(input).rest().len() >= 4 ==> (r matches Ok(c) && color_bytes(c) == old(
                input,
            ).rest().take(4) && final(input).pos == old(input).pos + 4),
            old(input).rest().len() < 4 ==> r == Err::<Self, _>(ReadError::UnexpectedEof),
    {
        let bytes = match input.read_bytes(4) {
            Some(b) => b,
            None => return Err(ReadError::UnexpectedEof),
        };
        let c = BitmapColor(bytes[0], bytes[1], bytes[2], bytes[3]);
        assert(color_bytes(c) =~= bytes@);
        Ok(c)
    }

    pub fn write_to(&self, output: &mut Vec<u8>)
        ensures
            final(output)@ == old(output)@ + color_bytes(*self),
    {
        output.push(self.0);
        output.push(self.1);
        output.push(self.2);
        output.push(self.3);
        assert(final(output)@ =~= old(output)@ + color_bytes(*self));
    }
}

/// Bitmap header info.
#[derive(Debug, Clone, PartialEq, Eq)]
pub struct BitmapInfo {
    pub size: u32,
    pub width: i32,
    pub height: i32,
    pub planes: u16,
    pub bit_count: u16,
    pub compression: u32,
    pub size_image: u32,
    pub xpels_per_meter: i32,
    pub ypels_per_meter: i32,
    pub clr_used: u32,
    pub clr_important: u32,
    pub colors: Vec<BitmapColor>,
}

/// The bytes of the eleven scalar fields of a bitmap header info.
pub open spec fn info_fields_bytes(i: BitmapInfo) -> Seq<u8> {
    u32_le_bytes(i.size) + i32_le_bytes(i.width) + i32_le_bytes(i.height) + u16_le_bytes(
        i.planes,
    ) + u16_le_bytes(i.bit_count) + u32_le_bytes(i.compression) + u32_le_bytes(i.size_image)
        + i32_le_bytes(i.xpels_per_meter) + i32_le_bytes(i.ypels_per_meter) + u32_le_bytes(
        i.clr_used,
    ) + u32_le_bytes(i.clr_important)
}

/// The bytes of a bitmap header info: its scalar fields, then its palette.
pub open spec fn info_bytes(i: BitmapInfo) -> Seq<u8> {
    info_fields_bytes(i) + colors_bytes(i.colors@)
}

/// Reads the 256 entries of a palette.
fn read_palette(input: &mut ByteReader) -> (r: Result<Vec<BitmapColor>, ReadError>)
    requires
        old(input).wf(),
    ensures
        final(input).wf(),
        final(input).data@ == old(input).data@,
        old(input).rest().len() >= 4 * PALETTE_SIZE ==> (r matches Ok(cs) && cs@.len()
            == PALETTE_SIZE && colors_bytes(cs@) == old(input).rest().take(4 * PALETTE_SIZE)
            && final(input).pos == old(input).pos + 4 * PALETTE_SIZE),
        old(input).rest().len() < 4 * PALETTE_SIZE ==> r == Err::<Vec<BitmapColor>, _>(
            ReadError::UnexpectedEof,
        ),
{
    let ghost d = input.data@;
    let ghost start = input.pos as int;
    if input.remaining() < 4 * PALETTE_SIZE {
        return Err(ReadError::UnexpectedEof);
    }
    let mut colors: Vec<BitmapColor> = Vec::new();
    let mut k: usize = 0;
    while k < PALETTE_SIZE
        invariant
            input.wf(),
            input.data@ == d,
            0 <= start,
            d.len() >= start + 4 * PALETTE_SIZE,
            k <= PALETTE_SIZE,
            input.pos == start + 4 * k,
            colors@.len() == k,
            colors_bytes(colors@) == d.subrange(start, start + 4 * k),
        decreases PALETTE_SIZE - k,
    {
        let ghost before = colors@;
        let ghost q = input.pos as int;
        let c = match BitmapColor::from(input) {
            Ok(c) => c,
            Err(e) => return Err(e),
        };
        proof {
            lemma_extend(d, start, q, 4, color_bytes(c));
        }
        colors.push(c);
        k = k + 1;
        assert(colors@.drop_last() =~= before);
    }
    assert(colors_bytes(colors@) =~= old(input).rest().take(4 * PALETTE_SIZE));
    Ok(colors)
}

impl BitmapInfo {
    /// A header info is written with exactly 256 palette entries.
    pub open spec fn wf(&self) -> bool {
        self.colors@.len() == PALETTE_SIZE
    }

    /// Read a bitmap header info structure from a byte stream.
    pub fn from(input: &mut ByteReader) -> (r: Result<Self, ReadError>)
        requires
            old(input).wf(),
        ensures
            final(input).wf(),
            final(input).data@ == old(input).data@,
            old(input).rest().len() >= INFO_LEN ==> (r matches Ok(i) && i.wf() && info_bytes(i)
                == old(input).rest().take(INFO_LEN as int) && final(input).pos == old(input).pos
                + INFO_LEN),
            old(input).rest().len() < INFO_LEN ==> r == Err::<Self, _>(ReadError::UnexpectedEof),
    {
        let ghost d = input.data@;
        let ghost start = input.pos as int;
        if input.remaining() < INFO_LEN {
            return Err(ReadError::UnexpectedEof);
        }
        let ghost mut acc: Seq<u8> = Seq::empty();
        assert(acc =~= d.subrange(start, start));
        let ghost q = input.pos as int;
        let size = input.read_u32().unwrap();
        proof {
            lemma_extend(d, start, q, 4, u32_le_bytes(size));
            acc = acc + u32_le_bytes(size);
        }
        let ghost q = input.pos as int;
        let width = input.read_i32().unwrap();
        proof {
            lemma_extend(d, start, q, 4, i32_le_bytes(width));
            acc = acc + i32_le_bytes(width);
        }
        let ghost q = input.pos as int;
        let height = input.read_i32().unwrap();
        proof {
            lemma_extend(d, start, q, 4, i32_le_bytes(height));
            acc = acc + i32_le_bytes(height);
        }
        let ghost q = input.pos as int;
        let planes = input.read_u16().unwrap();
        proof {
            lemma_extend(d, start, q, 2, u16_le_bytes(planes));
            acc = acc + u16_le_bytes(planes);
        }
        let ghost q = input.pos as int;
        let bit_count = input.read_u16().unwrap();
        proof {
            lemma_extend(d, start, q, 2, u16_le_bytes(bit_count));
            acc = acc + u16_le_bytes(bit_count);
        }
        let ghost q = input.pos as int;
        let compression = input.read_u32().unwrap();
        proof {
            lemma_extend(d, start, q, 4, u32_le_bytes(compression));
            acc = acc + u32_le_bytes(compression);
        }
        let ghost q = input.pos as int;
        let size_image = input.read_u32().unwrap();
        proof {
            lemma_extend(d, start, q, 4, u32_le_bytes(size_image));
            acc = acc + u32_le_bytes(size_image);
        }
        let ghost q = input.pos as int;
        let xpels_per_meter = input.read_i32().unwrap();
        proof {
            lemma_extend(d, start, q, 4, i32_le_bytes(xpels_per_meter));
            acc = acc + i32_le_bytes(xpels_per_meter);
        }
        let ghost q = input.pos as int;
        let ypels_per_meter = input.read_i32().unwrap();
        proof {
            lemma_extend(d, start, q, 4, i32_le_bytes(ypels_per_meter));
            acc = acc + i32_le_bytes(ypels_per_meter);
        }
        let ghost q = input.pos as int;
        let clr_used = input.read_u32().unwrap();
        proof {
            lemma_extend(d, start, q, 4, u32_le_bytes(clr_used));
            acc = acc + u32_le_bytes(clr_used);
        }
        let ghost q = input.pos as int;
        let clr_important = input.read_u32().unwrap();
        proof {
            lemma_extend(d, start, q, 4, u32_le_bytes(clr_important));
            acc = acc + u32_le_bytes(clr_important);
        }
        let ghost q = input.pos as int;
        let colors = match read_palette(input) {
            Ok(c) => c,
            Err(e) => return Err(e),
        };
        proof {
            lemma_extend(d, start, q, 4 * PALETTE_SIZE, colors_bytes(colors@));
        }
        let info = BitmapInfo {
            size,
            width,
            height,
            planes,
            bit_count,
            compression,
            size_image,
            xpels_per_meter,
            ypels_per_meter,
            clr_used,
            clr_important,
            colors,
        };
        assert(acc == d.subrange(start, start + 40));
        assert(info_fields_bytes(info) == acc);
        assert(info_bytes(info) == d.subrange(start, start + INFO_LEN));
        assert(d.subrange(start, start + INFO_LEN) =~= old(input).rest().take(INFO_LEN as int));
        Ok(info)
    }

    pub fn write_to(&self, output: &mut Vec<u8>)
        requires
            self.wf(),
        ensures
            final(output)@ == old(output)@ + info_bytes(*self),
    {
        write_u32(output, self.size);
        write_i32(output, self.width);
        write_i32(output, self.height);
        write_u16(output, self.planes);
        write_u16(output, self.bit_count);
        write_u32(output, self.compression);
        write_u32(output, self.size_image);
        write_i32(output, self.xpels_per_meter);
        write_i32(output, self.ypels_per_meter);
        write_u32(output, self.clr_used);
        write_u32(output, self.clr_important);
        assert(output@ =~= old(output)@ + info_fields_bytes(*self));
        let ghost mid = output@;
        let mut k: usize = 0;
        while k < self.colors.len()
            invariant
                k <= self.colors@.len(),
                output@ == mid + colors_bytes(self.colors@.take(k as int)),
            decreases self.colors@.len() - k,
        {
            self.colors[k].write_to(output);
            k = k + 1;
            assert(self.colors@.take(k as int).drop_last() =~= self.colors@.take(k - 1));
            assert(output@ =~= mid + colors_bytes(self.colors@.take(k as int)));
        }
        assert(self.colors@.take(k as int) =~= self.colors@);
        assert(output@ =~= old(output)@ + info_bytes(*self));
    }
}

/// Bytes of the four scalar fields that lead every bitmap, present or absent.
pub const BITMAP_LEAD_LEN: usize = 14;

/// A Genie-style bitmap file: a typical BMP with some metadata.
#[derive(Debug, Clone, PartialEq, Eq)]
pub struct Bitmap {
    pub own_memory: u32,
    pub width: u32,
    pub height: u32,
    pub orientation: u16,
    pub info: BitmapInfo,
    pub pixels: Vec<u8>,
}

/// Bytes in the pixel buffer: `height` rows of `width` bytes, each padded to a multiple of
/// four.
pub open spec fn pixels_len(width: u32, height: u32) -> int {
    height as int * ((width as int + 3) / 4 * 4)
}

/// The bytes of a present bitmap.
pub open spec fn bitmap_bytes(b: Bitmap) -> Seq<u8> {
    u32_le_bytes(b.own_memory) + u32_le_bytes(b.width) + u32_le_bytes(b.height) + u16_le_bytes(
        b.orientation,
    ) + info_bytes(b.info) + b.pixels@
}

/// The bytes that stand for no bitmap.
pub open spec fn empty_bitmap_bytes() -> Seq<u8> {
    u32_le_bytes(0) + u32_le_bytes(0) + u32_le_bytes(0) + u16_le_bytes(0)
}

/// Whether the bitmap that starts `s` is present: both its dimensions are nonzero.
pub open spec fn bitmap_present(s: Seq<u8>) -> bool {
    u32_from_le(s.skip(4)) != 0 && u32_from_le(s.skip(8)) != 0
}

/// Bytes taken by the present bitmap that starts `s`.
pub open spec fn bitmap_wire_len(s: Seq<u8>) -> int {
    BITMAP_LEAD_LEN + INFO_LEN + pixels_len(u32_from_le(s.skip(4)), u32_from_le(s.skip(8)))
}

/// Whether two header infos hold the same fields and palette.
pub open spec fn same_info(a: BitmapInfo, b: BitmapInfo) -> bool {
    &&& a.size == b.size
    &&& a.width == b.width
    &&& a.height == b.height
    &&& a.planes == b.planes
    &&& a.bit_count == b.bit_count
    &&& a.compression == b.compression
    &&& a.size_image == b.size_image
    &&& a.xpels_per_meter == b.xpels_per_meter
    &&& a.ypels_per_meter == b.ypels_per_meter
    &&& a.clr_used == b.clr_used
    &&& a.clr_important == b.clr_important
    &&& a.colors@ == b.colors@
}

/// Whether two bitmaps hold the same fields, header info and pixels.
pub open spec fn same_bitmap(a: Bitmap, b: Bitmap) -> bool {
    &&& a.own_memory == b.own_memory
    &&& a.width == b.width
    &&& a.height == b.height
    &&& a.orientation == b.orientation
    &&& same_info(a.info, b.info)
    &&& a.pixels@ == b.pixels@
}

proof fn lemma_pixels_len_bound(width: u32, height: u32)
    ensures
        0 <= (width as int + 3) / 4 * 4 <= 0x1_0000_0000,
        0 <= pixels_len(width, height) <= 0xffff_ffff * 0x1_0000_0000,
{
    let a = (width as int + 3) / 4 * 4;
    assert(0 <= a <= 0x1_0000_0000);
    assert(0 <= height as int * a <= 0xffff_ffff * 0x1_0000_0000) by (nonlinear_arith)
        requires
            0 <= a <= 0x1_0000_0000,
            0 <= height <= 0xffff_ffff,
    ;
}

impl Bitmap {
    /// A present bitmap: both dimensions nonzero, a full palette and the whole pixel buffer.
    pub open spec fn wf(&self) -> bool {
        &&& self.width > 0
        &&& self.height > 0
        &&& self.info.wf()
        &&& self.pixels@.len() == pixels_len(self.width, self.height)
    }

    /// Reads a bitmap; `None` when either dimension is zero, and then nothing but the four
    /// leading fields is read.
    pub fn from(input: &mut ByteReader) -> (r: Result<Option<Self>, ReadError>)
        requires
            old(input).wf(),
        ensures
            final(input).wf(),
            final(input).data@ == old(input).data@,
            old(input).rest().len() < BITMAP_LEAD_LEN ==> r == Err::<Option<Self>, _>(
                ReadError::UnexpectedEof,
            ),
            old(input).rest().len() >= BITMAP_LEAD_LEN && !bitmap_present(old(input).rest()) ==> (
            r matches Ok(None) && final(input).pos == old(input).pos + BITMAP_LEAD_LEN),
            old(input).rest().len() >= BITMAP_LEAD_LEN && bitmap_present(old(input).rest())
                && old(input).rest().len() < bitmap_wire_len(old(input).rest()) ==> r == Err::<
                Option<Self>,
                _,
            >(ReadError::UnexpectedEof),
            old(input).rest().len() >= BITMAP_LEAD_LEN && bitmap_present(old(input).rest())
                && old(input).rest().len() >= bitmap_wire_len(old(input).rest()) ==> (r matches Ok(
                Some(b),
            ) && b.wf() && bitmap_bytes(b) == old(input).rest().take(
                bitmap_wire_len(old(input).rest()),
            ) && final(input).pos == old(input).pos + bitmap_wire_len(old(input).rest())),
    {
        let ghost d = input.data@;
        let ghost start = input.pos as int;
        let ghost s = input.rest();
        if input.remaining() < BITMAP_LEAD_LEN {
            return Err(ReadError::UnexpectedEof);
        }
        let ghost mut acc: Seq<u8> = Seq::empty();
        assert(acc =~= d.subrange(start, start));
        let ghost q = input.pos as int;
        let own_memory = input.read_u32().unwrap();
        proof {
            lemma_extend(d, start, q, 4, u32_le_bytes(own_memory));
            acc = acc + u32_le_bytes(own_memory);
        }
        let ghost q = input.pos as int;
        let width = input.read_u32().unwrap();
        proof {
            lemma_extend(d, start, q, 4, u32_le_bytes(width));
            acc = acc + u32_le_bytes(width);
            assert(input.data@.subrange(q, input.data@.len() as int) =~= s.skip(4));
        }
        let ghost q = input.pos as int;
        let height = input.read_u32().unwrap();
        proof {
            lemma_extend(d, start, q, 4, u32_le_bytes(height));
            acc = acc + u32_le_bytes(height);
            assert(input.data@.subrange(q, input.data@.len() as int) =~= s.skip(8));
        }
        let ghost q = input.pos as int;
        let orientation = input.read_u16().unwrap();
        proof {
            lemma_extend(d, start, q, 2, u16_le_bytes(orientation));
            acc = acc + u16_le_bytes(orientation);
        }
        if width > 0 && height > 0 {
            let ghost q = input.pos as int;
            let info = match BitmapInfo::from(input) {
                Ok(i) => i,
                Err(e) => return Err(e),
            };
            proof {
                lemma_extend(d, start, q, INFO_LEN as int, info_bytes(info));
                acc = acc + info_bytes(info);
                lemma_pixels_len_bound(width, height);
            }
            let aligned: u64 = (width as u64 + 3) / 4 * 4;
            assert(height as int * aligned <= 0xffff_ffff * 0x1_0000_0000) by (nonlinear_arith)
                requires
                    0 <= aligned <= 0x1_0000_0000,
                    0 <= height <= 0xffff_ffff,
            ;
            let total: u64 = height as u64 * aligned;
            if total > input.remaining() as u64 {
                return Err(ReadError::UnexpectedEof);
            }
            let ghost q = input.pos as int;
            let pixels = input.read_bytes(total as usize).unwrap();
            proof {
                lemma_extend(d, start, q, total as int, pixels@);
            }
            let b = Bitmap { own_memory, width, height, orientation, info, pixels };
            assert(bitmap_bytes(b) == d.subrange(start, input.pos as int));
            assert(d.subrange(start, input.pos as int) =~= s.take(bitmap_wire_len(s)));
            Ok(Some(b))
        } else {
            Ok(None)
        }
    }

    /// Writes a present bitmap.
    pub fn write_to(&self, output: &mut Vec<u8>)
        requires
            self.wf(),
        ensures
            final(output)@ == old(output)@ + bitmap_bytes(*self),
    {
        write_u32(output, self.own_memory);
        write_u32(output, self.width);
        write_u32(output, self.height);
        write_u16(output, self.orientation);
        self.info.write_to(output);
        write_all(output, self.pixels.as_slice());
        assert(output@ =~= old(output)@ + bitmap_bytes(*self));
    }

    /// Writes the form that stands for no bitmap: the four leading fields, all zero.
    pub fn write_empty(output: &mut Vec<u8>)
        ensures
            final(output)@ == old(output)@ + empty_bitmap_bytes(),
    {
        write_u32(output, 0);
        write_u32(output, 0);
        write_u32(output, 0);
        write_u16(output, 0);
        assert(output@ =~= old(output)@ + empty_bitmap_bytes());
    }
}

proof fn lemma_info_bytes_parts(i: BitmapInfo)
    requires
        i.wf(),
    ensures
        info_bytes(i).len() == INFO_LEN,
        info_bytes(i).subrange(0, 4) == u32_le_bytes(i.size),
        info_bytes(i).subrange(4, 8) == i32_le_bytes(i.width),
        info_bytes(i).subrange(8, 12) == i32_le_bytes(i.height),
        info_bytes(i).subrange(12, 14) == u16_le_bytes(i.planes),
        info_bytes(i).subrange(14, 16) == u16_le_bytes(i.bit_count),
        info_bytes(i).subrange(16, 20) == u32_le_bytes(i.compression),
        info_bytes(i).subrange(20, 24) == u32_le_bytes(i.size_image),
        info_bytes(i).subrange(24, 28) == i32_le_bytes(i.xpels_per_meter),
        info_bytes(i).subrange(28, 32) == i32_le_bytes(i.ypels_per_meter),
        info_bytes(i).subrange(32, 36) == u32_le_bytes(i.clr_used),
        info_bytes(i).subrange(36, 40) == u32_le_bytes(i.clr_important),
        info_bytes(i).skip(40) == colors_bytes(i.colors@),
{
    lemma_colors_bytes_len(i.colors@);
    let b = info_bytes(i);
    assert(b.subrange(0, 4) =~= u32_le_bytes(i.size));
    assert(b.subrange(4, 8) =~= i32_le_bytes(i.width));
    assert(b.subrange(8, 12) =~= i32_le_bytes(i.height));
    assert(b.subrange(12, 14) =~= u16_le_bytes(i.planes));
    assert(b.subrange(14, 16) =~= u16_le_bytes(i.bit_count));
    assert(b.subrange(16, 20) =~= u32_le_bytes(i.compression));
    assert(b.subrange(20, 24) =~= u32_le_bytes(i.size_image));
    assert(b.subrange(24, 28) =~= i32_le_bytes(i.xpels_per_meter));
    assert(b.subrange(28, 32) =~= i32_le_bytes(i.ypels_per_meter));
    assert(b.subrange(32, 36) =~= u32_le_bytes(i.clr_used));
    assert(b.subrange(36, 40) =~= u32_le_bytes(i.clr_important));
    assert(b.skip(40) =~= colors_bytes(i.colors@));
}

proof fn lemma_info_bytes_injective(a: BitmapInfo, b: BitmapInfo)
    requires
        a.wf(),
        b.wf(),
        info_bytes(a) == info_bytes(b),
    ensures
        same_info(a, b),
{
    lemma_info_bytes_parts(a);
    lemma_info_bytes_parts(b);
    lemma_u32_le_bytes_injective(a.size, b.size);
    lemma_i32_le_bytes_injective(a.width, b.width);
    lemma_i32_le_bytes_injective(a.height, b.height);
    lemma_u16_le_bytes_injective(a.planes, b.planes);
    lemma_u16_le_bytes_injective(a.bit_count, b.bit_count);
    lemma_u32_le_bytes_injective(a.compression, b.compression);
    lemma_u32_le_bytes_injective(a.size_image, b.size_image);
    lemma_i32_le_bytes_injective(a.xpels_per_meter, b.xpels_per_meter);
    lemma_i32_le_bytes_injective(a.ypels_per_meter, b.ypels_per_meter);
    lemma_u32_le_bytes_injective(a.clr_used, b.clr_used);
    lemma_u32_le_bytes_injective(a.clr_important, b.clr_important);
    lemma_colors_bytes_injective(a.colors@, b.colors@);
}

proof fn lemma_bitmap_bytes_parts(b: Bitmap)
    requires
        b.info.wf(),
    ensures
        bitmap_bytes(b).len() == BITMAP_LEAD_LEN + INFO_LEN + b.pixels@.len(),
        bitmap_bytes(b).subrange(0, 4) == u32_le_bytes(b.own_memory),
        bitmap_bytes(b).subrange(4, 8) == u32_le_bytes(b.width),
        bitmap_bytes(b).subrange(8, 12) == u32_le_bytes(b.height),
        bitmap_bytes(b).subrange(12, 14) == u16_le_bytes(b.orientation),
        bitmap_bytes(b).subrange(14, 14 + INFO_LEN) == info_bytes(b.info),
        bitmap_bytes(b).skip(14 + INFO_LEN) == b.pixels@,
{
    lemma_info_bytes_parts(b.info);
    let s = bitmap_bytes(b);
    assert(s.subrange(0, 4) =~= u32_le_bytes(b.own_memory));
    assert(s.subrange(4, 8) =~= u32_le_bytes(b.width));
    assert(s.subrange(8, 12) =~= u32_le_bytes(b.height));
    assert(s.subrange(12, 14) =~= u16_le_bytes(b.orientation));
    assert(s.subrange(14, 14 + INFO_LEN) =~= info_bytes(b.info));
    assert(s.skip(14 + INFO_LEN) =~= b.pixels@);
}

/// What `write_to` writes for a present bitmap, `from` reads back as that bitmap: whatever
/// follows, the input starts with a present bitmap of exactly that many bytes, and no other
/// present bitmap has the same bytes.
pub proof fn lemma_bitmap_round_trip(b: Bitmap, other: Bitmap, tail: Seq<u8>)
    requires
        b.wf(),
        other.wf(),
    ensures
        (bitmap_bytes(b) + tail).len() >= BITMAP_LEAD_LEN,
        bitmap_present(bitmap_bytes(b) + tail),
        bitmap_wire_len(bitmap_bytes(b) + tail) == bitmap_bytes(b).len(),
        (bitmap_bytes(b) + tail).take(bitmap_bytes(b).len() as int) == bitmap_bytes(b),
        bitmap_bytes(other) == bitmap_bytes(b) ==> same_bitmap(other, b),
{
    let w = bitmap_bytes(b);
    let s = w + tail;
    lemma_bitmap_bytes_parts(b);
    lemma_bitmap_bytes_parts(other);
    assert(s.skip(4).subrange(0, 4) =~= w.subrange(4, 8));
    assert(s.skip(8).subrange(0, 4) =~= w.subrange(8, 12));
    lemma_u32_from_le_prefix(s.skip(4), b.width);
    lemma_u32_from_le_prefix(s.skip(8), b.height);
    assert(s.take(w.len() as int) =~= w);
    if bitmap_bytes(other) == w {
        lemma_u32_le_bytes_injective(other.own_memory, b.own_memory);
        lemma_u32_le_bytes_injective(other.width, b.width);
        lemma_u32_le_bytes_injective(other.height, b.height);
        lemma_u16_le_bytes_injective(other.orientation, b.orientation);
        lemma_info_bytes_injective(other.info, b.info);
    }
}

/// No bitmap reads back as absent: what `write_empty` writes has both dimensions zero, and
/// `from` reads just its fourteen bytes.
pub proof fn lemma_empty_bitmap_absent(tail: Seq<u8>)
    ensures
        empty_bitmap_bytes().len() == BITMAP_LEAD_LEN,
        (empty_bitmap_bytes() + tail).len() >= BITMAP_LEAD_LEN,
        !bitmap_present(empty_bitmap_bytes() + tail),
{
    let s = empty_bitmap_bytes() + tail;
    assert(s.skip(4).subrange(0, 4) =~= u32_le_bytes(0));
    lemma_u32_from_le_prefix(s.skip(4), 0);
}

} // verus!
