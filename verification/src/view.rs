use crate::chunk::{ChunkGeneration, Tile};
use crate::generator::{locate_tile, tile_position, CHUNK_HEIGHT, CHUNK_WIDTH};
use crate::types::{Area, Vector2};
use vstd::prelude::*;

verus! {

/// A window on generated chunks. It borrows the chunks and owns none.
pub struct GenerationView<'a, T> {
    /// Tiles per chunk along each axis.
    pub chunk_size: Vector2<usize>,
    /// World size of one tile along each axis.
    pub tile_size: Vector2<u16>,
    /// The chunks in the window, each with its place on the chunk grid.
    pub chunks: Vec<(Vector2<i32>, &'a ChunkGeneration<T, CHUNK_WIDTH, CHUNK_HEIGHT>)>,
}

/// The part of the world that the tile at `local` of chunk `chunk_pos` covers.
pub open spec fn tile_area(
    chunk_pos: Vector2<i32>,
    tile_size: Vector2<u16>,
    local: Vector2<usize>,
) -> Area<i64> {
    let start = tile_position(chunk_pos, tile_size, local);
    Area {
        start,
        end: Vector2 { x: (start.x + tile_size.x) as i64, y: (start.y + tile_size.y) as i64 },
    }
}

/// The classified ones among the first `n` tiles of a chunk, each with its
/// area, in storage order.
pub open spec fn chunk_tiles<T>(
    chunk_pos: Vector2<i32>,
    tile_size: Vector2<u16>,
    tiles: Seq<Tile<T>>,
    n: nat,
) -> Seq<(Area<i64>, T)>
    decreases n,
{
    if n == 0 {
        Seq::empty()
    } else {
        let before = chunk_tiles(chunk_pos, tile_size, tiles, (n - 1) as nat);
        match tiles[n - 1] {
            Some(category) => before.push(
                (
                    tile_area(
                        chunk_pos,
                        tile_size,
                        ChunkGeneration::<T, CHUNK_WIDTH, CHUNK_HEIGHT>::local_position(n - 1),
                    ),
                    category,
                ),
            ),
            None => before,
        }
    }
}

/// The classified tiles of the first `k` chunks, chunk after chunk.
pub open spec fn view_tiles<T>(
    chunks: Seq<(Vector2<i32>, Seq<Tile<T>>)>,
    tile_size: Vector2<u16>,
    k: nat,
) -> Seq<(Area<i64>, T)>
    decreases k,
{
    if k == 0 {
        Seq::empty()
    } else {
        view_tiles(chunks, tile_size, (k - 1) as nat) + chunk_tiles(
            chunks[k - 1].0,
            tile_size,
            chunks[k - 1].1,
            chunks[k - 1].1.len(),
        )
    }
}

/// A list of borrowed categories as plain values.
pub open spec fn shown<T>(tiles: Seq<(Area<i64>, &T)>) -> Seq<(Area<i64>, T)> {
    Seq::new(tiles.len(), |i: int| (tiles[i].0, *tiles[i].1))
}

impl<'a, T> GenerationView<'a, T> {
    /// The chunks in the window as plain values: place and tiles.
    pub open spec fn view(&self) -> Seq<(Vector2<i32>, Seq<Tile<T>>)> {
        Seq::new(self.chunks@.len(), |i: int| (self.chunks@[i].0, self.chunks@[i].1@))
    }

    /// Every classified tile in the window with the area it covers in the
    /// world, chunk after chunk and row by row.
    pub fn tiles(&self) -> (tiles: Vec<(Area<i64>, &'a T)>)
        ensures
            shown(tiles@) == view_tiles(self@, self.tile_size, self@.len()),
    {
        let mut tiles: Vec<(Area<i64>, &'a T)> = Vec::new();
        let mut k: usize = 0;
        assert(shown(tiles@) =~= view_tiles(self@, self.tile_size, 0));
        while k < self.chunks.len()
            invariant
                k <= self@.len(),
                self@.len() == self.chunks@.len(),
                shown(tiles@) == view_tiles(self@, self.tile_size, k as nat),
            decreases self@.len() - k,
        {
            let chunk_pos = self.chunks[k].0;
            let chunk: &'a ChunkGeneration<T, CHUNK_WIDTH, CHUNK_HEIGHT> = self.chunks[k].1;
            let chunk_tiles_vec = chunk.iter();
            let ghost done = view_tiles(self@, self.tile_size, k as nat);
            assert(self@[k as int] == (chunk_pos, chunk@));
            let mut j: usize = 0;
            assert(shown(tiles@) =~= done + chunk_tiles(chunk_pos, self.tile_size, chunk@, 0));
            while j < chunk_tiles_vec.len()
                invariant
                    j <= chunk_tiles_vec@.len(),
                    chunk_tiles_vec@.len() == CHUNK_WIDTH * CHUNK_HEIGHT,
                    chunk_tiles_vec@.len() == chunk@.len(),
                    forall|i: int|
                        0 <= i < chunk_tiles_vec@.len() ==> (#[trigger] chunk_tiles_vec@[i]).0
                            == ChunkGeneration::<T, CHUNK_WIDTH, CHUNK_HEIGHT>::local_position(i)
                            && *chunk_tiles_vec@[i].1 == chunk@[i],
                    shown(tiles@) == done + chunk_tiles(
                        chunk_pos,
                        self.tile_size,
                        chunk@,
                        j as nat,
                    ),
                decreases chunk_tiles_vec@.len() - j,
            {
                let local = chunk_tiles_vec[j].0;
                let tile: &'a Tile<T> = chunk_tiles_vec[j].1;
                let ghost before = shown(tiles@);
                match tile {
                    Some(category) => {
                        let start = locate_tile(chunk_pos, self.tile_size, local);
                        let end = Vector2 {
                            x: start.x + self.tile_size.x as i64,
                            y: start.y + self.tile_size.y as i64,
                        };
                        tiles.push((Area { start, end }, category));
                        assert(shown(tiles@) =~= before.push(
                            (tile_area(chunk_pos, self.tile_size, local), *category),
                        ));
                    },
                    None => {},
                }
                j += 1;
            }
            k += 1;
        }
        tiles
    }

    /// Every chunk in the window with its place on the chunk grid, and each
    /// of its tiles with its column and row.
    pub fn chunks(&self) -> (chunks: Vec<(Vector2<i32>, Vec<(Vector2<usize>, &'a Tile<T>)>)>)
        ensures
            chunks@.len() == self@.len(),
            forall|k: int|
                0 <= k < chunks@.len() ==> {
                    &&& (#[trigger] chunks@[k]).0 == self@[k].0
                    &&& chunks@[k].1@.len() == self@[k].1.len()
                    &&& chunks@[k].1@.len() == CHUNK_WIDTH * CHUNK_HEIGHT
                    &&& forall|i: int|
                        0 <= i < chunks@[k].1@.len() ==> (#[trigger] chunks@[k].1@[i]).0
                            == ChunkGeneration::<T, CHUNK_WIDTH, CHUNK_HEIGHT>::local_position(i)
                            && *chunks@[k].1@[i].1 == self@[k].1[i]
                },
    {
        let mut chunks: Vec<(Vector2<i32>, Vec<(Vector2<usize>, &'a Tile<T>)>)> = Vec::new();
        let mut k: usize = 0;
        while k < self.chunks.len()
            invariant
                k <= self@.len(),
                self@.len() == self.chunks@.len(),
                chunks@.len() == k,
                forall|m: int|
                    0 <= m < k ==> {
                        &&& (#[trigger] chunks@[m]).0 == self@[m].0
                        &&& chunks@[m].1@.len() == self@[m].1.len()
                        &&& chunks@[m].1@.len() == CHUNK_WIDTH * CHUNK_HEIGHT
                        &&& forall|i: int|
                            0 <= i < chunks@[m].1@.len() ==> (#[trigger] chunks@[m].1@[i]).0
                                == ChunkGeneration::<
                                T,
                                CHUNK_WIDTH,
                                CHUNK_HEIGHT,
                            >::local_position(i) && *chunks@[m].1@[i].1 == self@[m].1[i]
                    },
            decreases self@.len() - k,
        {
            let chunk: &'a ChunkGeneration<T, CHUNK_WIDTH, CHUNK_HEIGHT> = self.chunks[k].1;
            chunks.push((self.chunks[k].0, chunk.iter()));
            k += 1;
        }
        chunks
    }
}

} // verus!
