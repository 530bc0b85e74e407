//! The terrain map of a scenario: a dense grid of three-byte tiles, row by row.
use crate::bytes::{
    i8_byte, lemma_extend, lemma_i8_byte_injective, lemma_u32_from_le_prefix,
    lemma_u32_le_bytes_injective, u32_from_le, u32_le_bytes, write_i8, write_u32, ByteReader,
    ReadError,
};
use vstd::prelude::*;

verus! {

/// A map tile.
#[derive(Debug, Clone, Copy, PartialEq, Eq, Structural)]
pub struct Tile {
    /// The terrain.
    pub terrain: i8,
    /// The elevation level.
    pub elevation: i8,
    /// Unused?
    pub zone: i8,
}

/// Describes the terrain in a map.
#[derive(Debug, Clone, PartialEq, Eq)]
pub struct TileMap {
    /// Width of this map in tiles.
    pub width: u32,
    /// Height of this map in tiles.
    pub height: u32,
    /// The tiles of this map, row by row: the tile at `(x, y)` is at `y * width + x`.
    pub tiles: Vec<Tile>,
}

/// The three bytes of a tile.
pub open spec fn tile_bytes(t: Tile) -> Seq<u8> {
    i8_byte(t.terrain) + i8_byte(t.elevation) + i8_byte(t.zone)
}

/// The bytes of a sequence of tiles, in order.
pub open spec fn tiles_bytes(ts: Seq<Tile>) -> Seq<u8>
    decreases ts.len(),
{
    if ts.len() == 0 {
        Seq::empty()
    } else {
        tiles_bytes(ts.drop_last()) + tile_bytes(ts.last())
    }
}

/// The bytes of a map: its width, its height, then its tiles row by row.
pub open spec fn map_bytes(m: TileMap) -> Seq<u8> {
    u32_le_bytes(m.width) + u32_le_bytes(m.height) + tiles_bytes(m.tiles@)
}

/// Bytes taken by the map that starts `s`.
pub open spec fn map_wire_len(s: Seq<u8>) -> int {
    8 + 3 * (u32_from_le(s) as int * u32_from_le(s.skip(4)) as int)
}

/// Where the tile at `(x, y)` stands in the row-major tile sequence.
pub open spec fn tile_index(width: u32, x: u32, y: u32) -> int {
    y as int * width as int + x as int
}

proof fn lemma_tiles_bytes_len(ts: Seq<Tile>)
    ensures
        tiles_bytes(ts).len() == 3 * ts.len(),
    decreases ts.len(),
{
    if ts.len() > 0 {
        lemma_tiles_bytes_len(ts.drop_last());
    }
}

proof fn lemma_tiles_bytes_injective(a: Seq<Tile>, b: Seq<Tile>)
    requires
        a.len() == b.len(),
        tiles_bytes(a) == tiles_bytes(b),
    ensures
        a == b,
    decreases a.len(),
{
    if a.len() > 0 {
        lemma_tiles_bytes_len(a.drop_last());
        lemma_tiles_bytes_len(b.drop_last());
        let n = 3 * (a.len() - 1);
        assert(tiles_bytes(a.drop_last()) =~= tiles_bytes(a).take(n));
        assert(tiles_bytes(b.drop_last()) =~= tiles_bytes(b).take(n));
        lemma_tiles_bytes_injective(a.drop_last(), b.drop_last());
        let (x, y) = (a.last(), b.last());
        assert(tile_bytes(x) =~= tiles_bytes(a).skip(n));
        assert(tile_bytes(y) =~= tiles_bytes(b).skip(n));
        assert(i8_byte(x.terrain) =~= tile_bytes(x).subrange(0, 1));
        assert(i8_byte(y.terrain) =~= tile_bytes(y).subrange(0, 1));
        assert(i8_byte(x.elevation) =~= tile_bytes(x).subrange(1, 2));
        assert(i8_byte(y.elevation) =~= tile_bytes(y).subrange(1, 2));
        assert(i8_byte(x.zone) =~= tile_bytes(x).subrange(2, 3));
        assert(i8_byte(y.zone) =~= tile_bytes(y).subrange(2, 3));
        lemma_i8_byte_injective(x.terrain, y.terrain);
        lemma_i8_byte_injective(x.elevation, y.elevation);
        lemma_i8_byte_injective(x.zone, y.zone);
        assert(a =~= a.drop_last().push(x));
        assert(b =~= b.drop_last().push(y));
    } else {
        assert(a =~= b);
    }
}

proof fn lemma_index_in_grid(width: u32, height: u32, x: u32, y: u32)
    requires
        x < width,
        y < height,
    ensures
        0 <= tile_index(width, x, y) < width as int * height as int,
{
    assert(0 <= (y as int) * (width as int) + (x as int) < (width as int) * (height as int))
        by (nonlinear_arith)
        requires
            x < width,
            y < height,
    ;
}

impl Tile {
    /// Reads a tile: terrain, elevation, zone, one byte each.
    fn from(input: &mut ByteReader) -> (r: Result<Self, ReadError>)
        requires
            old(input).wf(),
        ensures
            final(input).wf(),
            final(input).data@ == old(input).data@,
            old(input).rest().len() >= 3 ==> (r matches Ok(t) && tile_bytes(t) == old(
                input,
            ).rest().take(3) && final(input).pos == old(input).pos + 3),
            old(input).rest().len() < 3 ==> r == Err::<Self, _>(ReadError::UnexpectedEof),
    {
        if input.remaining() < 3 {
            return Err(ReadError::UnexpectedEof);
        }
        let terrain = input.read_i8().unwrap();
        let elevation = input.read_i8().unwrap();
        let zone = input.read_i8().unwrap();
        let t = Tile { terrain, elevation, zone };
        assert(tile_bytes(t) =~= old(input).rest().take(3));
        Ok(t)
    }
}

impl TileMap {
    /// The grid holds exactly `width * height` tiles.
    pub open spec fn wf(&self) -> bool {
        self.tiles@.len() == self.width as int * self.height as int
    }

    /// Reads a map: its width and height, then `height` rows of `width` tiles.
    pub fn from(input: &mut ByteReader) -> (r: Result<Self, ReadError>)
        requires
            old(input).wf(),
        ensures
            final(input).wf(),
            final(input).data@ == old(input).data@,
            old(input).rest().len() < map_wire_len(old(input).rest()) ==> r == Err::<Self, _>(
                ReadError::UnexpectedEof,
            ),
            old(input).rest().len() >= map_wire_len(old(input).rest()) ==> (r matches Ok(m)
                && m.wf() && map_bytes(m) == old(input).rest().take(
                map_wire_len(old(input).rest()),
            ) && final(input).pos == old(input).pos + map_wire_len(old(input).rest())),
    {
        let ghost d = input.data@;
        let ghost start = input.pos as int;
        let ghost s = input.rest();
        if input.remaining() < 8 {
            return Err(ReadError::UnexpectedEof);
        }
        let width = input.read_u32().unwrap();
        let ghost q = input.pos as int;
        let height = input.read_u32().unwrap();
        proof {
            assert(input.data@.subrange(q, input.data@.len() as int) =~= s.skip(4));
            assert(u32_le_bytes(width) + u32_le_bytes(height) =~= d.subrange(start, start + 8));
        }
        assert((width as int) * (height as int) <= 0xffff_ffff * 0xffff_ffff) by (nonlinear_arith)
            requires
                width <= 0xffff_ffff,
                height <= 0xffff_ffff,
        ;
        let count: u64 = width as u64 * height as u64;
        if count > (input.remaining() / 3) as u64 {
            return Err(ReadError::UnexpectedEof);
        }
        let count = count as usize;
        let mut tiles: Vec<Tile> = Vec::new();
        let mut k: usize = 0;
        while k < count
            invariant
                input.wf(),
                input.data@ == d,
                0 <= start,
                start + 8 + 3 * count <= d.len(),
                k <= count,
                input.pos == start + 8 + 3 * k,
                tiles@.len() == k,
                tiles_bytes(tiles@) == d.subrange(start + 8, start + 8 + 3 * k),
            decreases count - k,
        {
            let ghost before = tiles@;
            let ghost q = input.pos as int;
            let t = match Tile::from(input) {
                Ok(t) => t,
                Err(e) => return Err(e),
            };
            proof {
                lemma_extend(d, start + 8, q, 3, tile_bytes(t));
            }
            tiles.push(t);
            k = k + 1;
            assert(tiles@.drop_last() =~= before);
        }
        let m = TileMap { width, height, tiles };
        assert(map_bytes(m) =~= old(input).rest().take(map_wire_len(s)));
        Ok(m)
    }

    /// Writes the map; its grid must hold `width * height` tiles.
    pub fn write_to(&self, output: &mut Vec<u8>)
        requires
            self.wf(),
        ensures
            final(output)@ == old(output)@ + map_bytes(*self),
    {
        write_u32(output, self.width);
        write_u32(output, self.height);
        let ghost mid = output@;
        let mut k: usize = 0;
        while k < self.tiles.len()
            invariant
                k <= self.tiles@.len(),
                output@ == mid + tiles_bytes(self.tiles@.take(k as int)),
            decreases self.tiles@.len() - k,
        {
            let t = self.tiles[k];
            write_i8(output, t.terrain);
            write_i8(output, t.elevation);
            write_i8(output, t.zone);
            k = k + 1;
            assert(self.tiles@.take(k as int).drop_last() =~= self.tiles@.take(k - 1));
            assert(output@ =~= mid + tiles_bytes(self.tiles@.take(k as int)));
        }
        assert(self.tiles@.take(k as int) =~= self.tiles@);
        assert(output@ =~= old(output)@ + map_bytes(*self));
    }

    /// Get the width of the map.
    pub fn width(&self) -> (r: u32)
        ensures
            r == self.width,
    {
        self.width
    }

    /// Get the height of the map.
    pub fn height(&self) -> (r: u32)
        ensures
            r == self.height,
    {
        self.height
    }

    /// Get a tile at the given coordinates.
    ///
    /// If the coordinates are out of bounds, returns None.
    pub fn tile(&self, x: u32, y: u32) -> (r: Option<&Tile>)
        requires
            self.wf(),
        ensures
            x < self.width && y < self.height ==> (r matches Some(t) && *t == self.tiles@[tile_index(
                self.width,
                x,
                y,
            )]),
            !(x < self.width && y < self.height) ==> r is None,
    {
        if x < self.width && y < self.height {
            let n = self.tiles.len();
            proof {
                lemma_index_in_grid(self.width, self.height, x, y);
                assert((y as int) * (self.width as int) <= tile_index(self.width, x, y));
            }
            let i = y as usize * self.width as usize + x as usize;
            Some(&self.tiles[i])
        } else {
            None
        }
    }

    /// Get a mutable reference to the tile at the given coordinates.
    ///
    /// If the coordinates are out of bounds, returns None.
    pub fn tile_mut(&mut self, x: u32, y: u32) -> (r: Option<&mut Tile>)
        requires
            old(self).wf(),
        ensures
            x < old(self).width && y < old(self).height ==> (r matches Some(t) && *t == old(
                self,
            ).tiles@[tile_index(old(self).width, x, y)] && final(self).tiles@ == old(
                self,
            ).tiles@.update(tile_index(old(self).width, x, y), *final(t)) && final(self).width
                == old(self).width && final(self).height == old(self).height),
            !(x < old(self).width && y < old(self).height) ==> r is None && *final(self) == *old(
                self,
            ),
    {
        if x < self.width && y < self.height {
            let n = self.tiles.len();
            proof {
                lemma_index_in_grid(self.width, self.height, x, y);
                assert((y as int) * (self.width as int) <= tile_index(self.width, x, y));
            }
            let i = y as usize * self.width as usize + x as usize;
            Some(&mut self.tiles[i])
        } else {
            None
        }
    }

    /// All the tiles, row by row, for changing them in place.
    pub fn tiles_mut(&mut self) -> (r: &mut [Tile])
        ensures
            r@ == old(self).tiles@,
            final(self).tiles@ == final(r)@,
            final(self).width == old(self).width,
            final(self).height == old(self).height,
    {
        self.tiles.as_mut_slice()
    }

    /// All the tiles, row by row.
    pub fn tiles(&self) -> (r: &[Tile])
        ensures
            r@ == self.tiles@,
    {
        self.tiles.as_slice()
    }
}

/// What `write_to` writes for a well-formed map, `from` reads back as that map: whatever
/// follows, the input starts with a map of exactly that many bytes, and no other well-formed
/// map has the same bytes.
pub proof fn lemma_map_round_trip(m: TileMap, other: TileMap, tail: Seq<u8>)
    requires
        m.wf(),
        other.wf(),
    ensures
        map_wire_len(map_bytes(m) + tail) == map_bytes(m).len(),
        (map_bytes(m) + tail).len() >= map_wire_len(map_bytes(m) + tail),
        (map_bytes(m) + tail).take(map_bytes(m).len() as int) == map_bytes(m),
        map_bytes(other) == map_bytes(m) ==> other.width == m.width && other.height == m.height
            && other.tiles@ == m.tiles@,
{
    let w = map_bytes(m);
    let s = w + tail;
    lemma_tiles_bytes_len(m.tiles@);
    lemma_tiles_bytes_len(other.tiles@);
    assert(s.subrange(0, 4) =~= u32_le_bytes(m.width));
    assert(s.skip(4).subrange(0, 4) =~= u32_le_bytes(m.height));
    lemma_u32_from_le_prefix(s, m.width);
    lemma_u32_from_le_prefix(s.skip(4), m.height);
    assert(s.take(w.len() as int) =~= w);
    if map_bytes(other) == w {
        let o = map_bytes(other);
        assert(o.subrange(0, 4) =~= u32_le_bytes(other.width));
        assert(o.subrange(4, 8) =~= u32_le_bytes(other.height));
        assert(w.subrange(0, 4) =~= u32_le_bytes(m.width));
        assert(w.subrange(4, 8) =~= u32_le_bytes(m.height));
        lemma_u32_le_bytes_injective(other.width, m.width);
        lemma_u32_le_bytes_injective(other.height, m.height);
        assert(o.skip(8) =~= tiles_bytes(other.tiles@));
        assert(w.skip(8) =~= tiles_bytes(m.tiles@));
        lemma_tiles_bytes_injective(other.tiles@, m.tiles@);
    }
}

} // verus!
