use crate::chunk::{ChunkGeneration, Tile};
use crate::generator::{sampler_ok, Generator, CHUNK_HEIGHT, CHUNK_WIDTH};
use crate::noise_parameters::NoiseField;
use crate::tile_generation::TileGeneration;
use crate::types::{Area, Vector2};
use crate::view::GenerationView;
use std::collections::HashMap;
use vstd::arithmetic::div_mod::lemma_div_is_ordered;
use vstd::arithmetic::div_mod::lemma_fundamental_div_mod;
use vstd::arithmetic::div_mod::lemma_mod_bound;
use vstd::prelude::*;

verus! {

broadcast use vstd::std_specs::hash::group_hash_axioms;

/// Describes the scale of the generation.
#[derive(Clone, Copy, Debug, PartialEq, Eq)]
pub enum GenerationScale {
    /// World size of one tile along each axis. Bigger tiles cover an area
    /// with fewer of them.
    TileSize { x: u16, y: u16 },
}

impl GenerationScale {
    /// The tile size as a vector.
    pub open spec fn size(self) -> Vector2<u16> {
        match self {
            GenerationScale::TileSize { x, y } => Vector2 { x, y },
        }
    }

    /// Tiles have an extent along both axes.
    pub open spec fn positive(self) -> bool {
        self.size().x > 0 && self.size().y > 0
    }

    pub fn tile_size(self) -> (size: Vector2<u16>)
        ensures
            size == self.size(),
    {
        match self {
            GenerationScale::TileSize { x, y } => Vector2 { x, y },
        }
    }

    /// Whether both tile dimensions are positive: the test to make on a scale
    /// that comes from outside before it is set.
    pub fn is_positive(self) -> (ok: bool)
        ensures
            ok == self.positive(),
    {
        match self {
            GenerationScale::TileSize { x, y } => x > 0 && y > 0,
        }
    }
}

/// The chunk that holds world coordinate `position` along an axis with
/// `tiles` tiles of size `tile_size` per chunk: the quotient rounded down.
pub open spec fn chunk_index(position: int, tiles: int, tile_size: int) -> int {
    position / (tiles * tile_size)
}

/// The chunk that holds `position`.
pub open spec fn chunk_of(position: Vector2<i32>, tile_size: Vector2<u16>) -> Vector2<i32> {
    Vector2 {
        x: chunk_index(position.x as int, CHUNK_WIDTH as int, tile_size.x as int) as i32,
        y: chunk_index(position.y as int, CHUNK_HEIGHT as int, tile_size.y as int) as i32,
    }
}

/// The end of `area` lies before its start along an axis: the area holds no
/// point.
pub open spec fn inverted(area: Area<i32>) -> bool {
    area.end.x < area.start.x || area.end.y < area.start.y
}

/// `chunk_pos` lies in the grid rectangle spanned by the chunks of the two
/// corners of `area`. No chunk does where the area is inverted.
pub open spec fn in_range(chunk_pos: Vector2<i32>, area: Area<i32>, tile_size: Vector2<u16>) -> bool {
    let start = chunk_of(area.start, tile_size);
    let end = chunk_of(area.end, tile_size);
    &&& !inverted(area)
    &&& start.x <= chunk_pos.x <= end.x
    &&& start.y <= chunk_pos.y <= end.y
}

/// `a` comes before `b` when rows are walked one after the other.
pub open spec fn row_major_before(a: Vector2<i32>, b: Vector2<i32>) -> bool {
    a.y < b.y || (a.y == b.y && a.x < b.x)
}

/// `shown` lists, row by row, exactly the chunks of `chunks` that lie in the
/// range of `area`.
pub open spec fn shows<T>(
    chunks: Map<Vector2<i32>, Seq<Tile<T>>>,
    tile_size: Vector2<u16>,
    area: Area<i32>,
    shown: Seq<(Vector2<i32>, Seq<Tile<T>>)>,
) -> bool {
    &&& forall|i: int|
        0 <= i < shown.len() ==> in_range((#[trigger] shown[i]).0, area, tile_size)
            && chunks.contains_key(shown[i].0) && shown[i].1 == chunks[shown[i].0]
    &&& forall|i: int, j: int|
        0 <= i < j < shown.len() ==> row_major_before(
            (#[trigger] shown[i]).0,
            (#[trigger] shown[j]).0,
        )
    &&& forall|c: Vector2<i32>|
        in_range(c, area, tile_size) && #[trigger] chunks.contains_key(c) ==> exists|i: int|
            0 <= i < shown.len() && (#[trigger] shown[i]).0 == c
}

/// The cache after every chunk in the range of `area` that `chunks` lacks
/// has been generated. What `chunks` holds stays as it is.
pub open spec fn filled<T, S: Fn(NoiseField, Vector2<i64>) -> i64>(
    generator: Generator<T, S>,
    tile_size: Vector2<u16>,
    chunks: Map<Vector2<i32>, Seq<Tile<T>>>,
    area: Area<i32>,
) -> Map<Vector2<i32>, Seq<Tile<T>>> {
    Map::new(
        |c: Vector2<i32>| chunks.contains_key(c) || in_range(c, area, tile_size),
        |c: Vector2<i32>|
            if chunks.contains_key(c) {
                chunks[c]
            } else {
                generator.chunk_at(c, tile_size)
            },
    )
}

/// The cache after the scale `current` is set to `wanted`: as it was where
/// the two are the same, empty where they differ.
pub open spec fn rescaled<T>(
    chunks: Map<Vector2<i32>, Seq<Tile<T>>>,
    current: GenerationScale,
    wanted: GenerationScale,
) -> Map<Vector2<i32>, Seq<Tile<T>>> {
    if wanted == current {
        chunks
    } else {
        Map::empty()
    }
}

/// The quotient rounded down stays between the dividend and zero, and the
/// divisor's multiples around the dividend are the quotient's and the next.
pub proof fn lemma_chunk_index(position: int, span: int)
    requires
        span > 0,
    ensures
        position >= 0 ==> 0 <= position / span <= position,
        position < 0 ==> position <= position / span < 0,
        span * (position / span) <= position < span * (position / span) + span,
{
    lemma_fundamental_div_mod(position, span);
    lemma_mod_bound(position, span);
    let q = position / span;
    let r = position % span;
    assert(position == span * q + r);
    if position >= 0 {
        assert(0 <= q <= position) by (nonlinear_arith)
            requires
                position == span * q + r,
                0 <= r < span,
                position >= 0,
        ;
    } else {
        assert(position <= q < 0) by (nonlinear_arith)
            requires
                position == span * q + r,
                0 <= r < span,
                position < 0,
        ;
    }
}

/// Of two positions, the one further along an axis has its chunk at least
/// as far along that axis.
pub proof fn lemma_chunk_of_ordered(low: Vector2<i32>, high: Vector2<i32>, tile_size: Vector2<u16>)
    requires
        tile_size.x > 0,
        tile_size.y > 0,
    ensures
        low.x <= high.x ==> chunk_of(low, tile_size).x <= chunk_of(high, tile_size).x,
        low.y <= high.y ==> chunk_of(low, tile_size).y <= chunk_of(high, tile_size).y,
{
    let span_x = CHUNK_WIDTH * tile_size.x;
    let span_y = CHUNK_HEIGHT * tile_size.y;
    lemma_chunk_index(low.x as int, span_x);
    lemma_chunk_index(high.x as int, span_x);
    lemma_chunk_index(low.y as int, span_y);
    lemma_chunk_index(high.y as int, span_y);
    if low.x <= high.x {
        lemma_div_is_ordered(low.x as int, high.x as int, span_x);
    }
    if low.y <= high.y {
        lemma_div_is_ordered(low.y as int, high.y as int, span_y);
    }
}

/// One axis of `tile_to_chunk_pos`.
fn chunk_coordinate(position: i32, tiles: usize, tile_size: u16) -> (index: i32)
    requires
        0 < tiles <= 50,
        tile_size > 0,
    ensures
        index == chunk_index(position as int, tiles as int, tile_size as int),
{
    assert(0 < tiles * tile_size <= 3276750) by (nonlinear_arith)
        requires
            0 < tiles <= 50,
            0 < tile_size <= 65535,
    ;
    let span: i64 = tiles as i64 * tile_size as i64;
    proof {
        lemma_chunk_index(position as int, span as int);
    }
    match (position as i64).checked_div_euclid(span) {
        Some(index) => index as i32,
        None => 0,
    }
}

/// The chunk that holds `tile_position`, for tiles of size `tile_size`.
pub fn tile_to_chunk_pos(tile_position: Vector2<i32>, tile_size: Vector2<u16>) -> (chunk_pos:
    Vector2<i32>)
    requires
        tile_size.x > 0,
        tile_size.y > 0,
    ensures
        chunk_pos == chunk_of(tile_position, tile_size),
{
    Vector2 {
        x: chunk_coordinate(tile_position.x, CHUNK_WIDTH, tile_size.x),
        y: chunk_coordinate(tile_position.y, CHUNK_HEIGHT, tile_size.y),
    }
}

/// The key under which the cache holds chunk `chunk_pos`.
pub open spec fn key_of(chunk_pos: Vector2<i32>) -> i64 {
    (chunk_pos.x * 0x1_0000_0000 + (chunk_pos.y + 0x8000_0000)) as i64
}

/// The chunk that the cache holds under `key`.
pub open spec fn coordinate_of(key: i64) -> Vector2<i32> {
    Vector2 {
        x: (key as int / 0x1_0000_0000) as i32,
        y: (key as int % 0x1_0000_0000 - 0x8000_0000) as i32,
    }
}

/// Keys and chunk coordinates correspond one to one.
pub proof fn lemma_keys(chunk_pos: Vector2<i32>, key: i64)
    ensures
        coordinate_of(key_of(chunk_pos)) == chunk_pos,
        key_of(coordinate_of(key)) == key,
{
}

fn chunk_key(chunk_pos: Vector2<i32>) -> (key: i64)
    ensures
        key == key_of(chunk_pos),
{
    chunk_pos.x as i64 * 0x1_0000_0000 + (chunk_pos.y as i64 + 0x8000_0000)
}

/// A world that is generated chunk by chunk, on demand. A chunk that was
/// generated is kept, and only a change of scale drops the chunks.
pub struct WorldGenerator<T, S> {
    generator: Generator<T, S>,
    scale: GenerationScale,
    chunks: HashMap<i64, ChunkGeneration<T, CHUNK_WIDTH, CHUNK_HEIGHT>>,
}

impl<T, S: Fn(NoiseField, Vector2<i64>) -> i64> WorldGenerator<T, S> {
    /// The classifier that generates the chunks.
    pub closed spec fn spec_generator(&self) -> &Generator<T, S> {
        &self.generator
    }

    /// The current scale.
    pub closed spec fn spec_scale(&self) -> GenerationScale {
        self.scale
    }

    /// The generated chunks by their place on the chunk grid.
    pub closed spec fn chunks(&self) -> Map<Vector2<i32>, Seq<Tile<T>>> {
        Map::new(
            |c: Vector2<i32>| self.chunks@.contains_key(key_of(c)),
            |c: Vector2<i32>| self.chunks@[key_of(c)]@,
        )
    }

    /// The generator is well formed and tiles have a positive size.
    pub open spec fn wf(&self) -> bool {
        self.generator().wf() && self.scale().positive()
    }

    /// A world of unit tiles without noises, rules or chunks.
    pub fn new(sampler: S) -> (world: Self)
        requires
            sampler_ok(sampler),
        ensures
            world.wf(),
            world.scale() == (GenerationScale::TileSize { x: 1, y: 1 }),
            world.chunks() == Map::<Vector2<i32>, Seq<Tile<T>>>::empty(),
            world.generator().noise_list() == Seq::<(Seq<char>, NoiseField)>::empty(),
            world.generator().generations() == Seq::<(T, TileGeneration)>::empty(),
            world.generator().sampler() == sampler,
    {
        let world = Self {
            generator: Generator::new(sampler),
            scale: GenerationScale::TileSize { x: 1, y: 1 },
            chunks: HashMap::new(),
        };
        assert(world.chunks() =~= Map::empty());
        world
    }

    /// Changes the scale. A scale that differs from the current one drops
    /// every chunk, the current one changes nothing.
    pub fn set_scale(&mut self, new_scale: GenerationScale)
        requires
            old(self).wf(),
            new_scale.positive(),
        ensures
            final(self).wf(),
            final(self).generator() == old(self).generator(),
            final(self).scale() == new_scale,
            final(self).chunks() == rescaled(old(self).chunks(), old(self).scale(), new_scale),
    {
        let current = self.scale.tile_size();
        let wanted = new_scale.tile_size();
        if current.x == wanted.x && current.y == wanted.y {
            return ;
        }
        self.chunks.clear();
        self.scale = new_scale;
        assert(self.chunks() =~= Map::empty());
    }

    /// The classifier, to register noises and rules with.
    pub fn generator_mut(&mut self) -> (generator: &mut Generator<T, S>)
        ensures
            *generator == *old(self).generator(),
            *final(self).generator() == *final(generator),
            final(self).scale() == old(self).scale(),
            final(self).chunks() == old(self).chunks(),
    {
        &mut self.generator
    }

    /// The classifier that generates the chunks.
    #[verifier::when_used_as_spec(spec_generator)]
    pub fn generator(&self) -> (generator: &Generator<T, S>)
        ensures
            generator == self.generator(),
    {
        &self.generator
    }

    /// The current scale.
    #[verifier::when_used_as_spec(spec_scale)]
    pub fn scale(&self) -> (scale: GenerationScale)
        ensures
            scale == self.scale(),
    {
        self.scale
    }

    /// Number of chunks generated and kept.
    pub fn chunk_count(&self) -> (n: usize)
        ensures
            n == self.chunks().dom().len(),
    {
        proof {
            lemma_cache_size(self.chunks@, self.chunks());
        }
        self.chunks.len()
    }
}

impl<T: Copy, S: Fn(NoiseField, Vector2<i64>) -> i64> WorldGenerator<T, S> {
    /// Generates every chunk in the range of `area` that is not there yet,
    /// and returns the view of `area`. Whole chunks are generated, so more
    /// than `area` may be covered, never less.
    pub fn generate_area(&mut self, area: Area<i32>) -> (view: GenerationView<'_, T>)
        requires
            old(self).wf(),
        ensures
            final(self).wf(),
            final(self).generator() == old(self).generator(),
            final(self).scale() == old(self).scale(),
            final(self).chunks() == filled(
                *old(self).generator(),
                old(self).scale().size(),
                old(self).chunks(),
                area,
            ),
            forall|c: Vector2<i32>|
                in_range(c, area, old(self).scale().size()) && !(#[trigger] old(
                    self,
                ).chunks().contains_key(c)) ==> old(self).generator().chunk_answered(
                    c,
                    old(self).scale().size(),
                ),
            view.chunk_size == (Vector2 { x: CHUNK_WIDTH, y: CHUNK_HEIGHT }),
            view.tile_size == old(self).scale().size(),
            shows(final(self).chunks(), old(self).scale().size(), area, view@),
            inverted(area) ==> view@.len() == 0 && final(self).chunks() == old(self).chunks(),
    {
        let tile_size = self.scale.tile_size();
        let ghost before = self.chunks@;
        if area.end.x < area.start.x || area.end.y < area.start.y {
            assert(self.chunks() =~= filled(
                *self.generator(),
                self.scale().size(),
                self.chunks(),
                area,
            ));
            return self.view(area);
        }
        let start = tile_to_chunk_pos(area.start, tile_size);
        let end = tile_to_chunk_pos(area.end, tile_size);
        proof {
            lemma_chunk_of_ordered(area.start, area.end, tile_size);
        }
        let mut y: i64 = start.y as i64;
        while y <= end.y as i64
            invariant
                self.generator == old(self).generator,
                self.scale == old(self).scale,
                self.wf(),
                tile_size == self.scale.size(),
                !inverted(area),
                start == chunk_of(area.start, tile_size),
                end == chunk_of(area.end, tile_size),
                start.x <= end.x,
                start.y <= y <= end.y + 1,
                forall|k: i64| #[trigger]
                    before.contains_key(k) ==> self.chunks@.contains_key(k) && self.chunks@[k]
                        == before[k],
                forall|k: i64| #[trigger]
                    self.chunks@.contains_key(k) && !before.contains_key(k) ==> {
                        &&& in_range(coordinate_of(k), area, tile_size)
                        &&& coordinate_of(k).y < y
                        &&& self.chunks@[k]@ == self.generator.chunk_at(
                            coordinate_of(k),
                            tile_size,
                        )
                        &&& self.generator.chunk_answered(coordinate_of(k), tile_size)
                    },
                forall|c: Vector2<i32>|
                    in_range(c, area, tile_size) && c.y < y ==> self.chunks@.contains_key(
                        #[trigger] key_of(c),
                    ),
            decreases end.y + 1 - y,
        {
            let mut x: i64 = start.x as i64;
            while x <= end.x as i64
                invariant
                    self.generator == old(self).generator,
                    self.scale == old(self).scale,
                    self.wf(),
                    tile_size == self.scale.size(),
                    !inverted(area),
                    start == chunk_of(area.start, tile_size),
                    end == chunk_of(area.end, tile_size),
                    start.y <= y <= end.y,
                    start.x <= x <= end.x + 1,
                    forall|k: i64| #[trigger]
                        before.contains_key(k) ==> self.chunks@.contains_key(k)
                            && self.chunks@[k] == before[k],
                    forall|k: i64| #[trigger]
                        self.chunks@.contains_key(k) && !before.contains_key(k) ==> {
                            &&& in_range(coordinate_of(k), area, tile_size)
                            &&& row_major_before(
                                coordinate_of(k),
                                Vector2 { x: x as i32, y: y as i32 },
                            ) || (x == end.x + 1 && coordinate_of(k).y == y)
                            &&& self.chunks@[k]@ == self.generator.chunk_at(
                                coordinate_of(k),
                                tile_size,
                            )
                            &&& self.generator.chunk_answered(coordinate_of(k), tile_size)
                        },
                    forall|c: Vector2<i32>|
                        in_range(c, area, tile_size) && (c.y < y || (c.y == y && c.x < x))
                            ==> self.chunks@.contains_key(#[trigger] key_of(c)),
                decreases end.x + 1 - x,
            {
                let chunk_pos = Vector2 { x: x as i32, y: y as i32 };
                let key = chunk_key(chunk_pos);
                proof {
                    lemma_keys(chunk_pos, key);
                }
                if !self.chunks.contains_key(&key) {
                    let chunk = self.generator.generate_chunk(chunk_pos, tile_size);
                    self.chunks.insert(key, chunk);
                }
                assert forall|c: Vector2<i32>|
                    in_range(c, area, tile_size) && (c.y < y || (c.y == y && c.x < x + 1))
                        implies self.chunks@.contains_key(#[trigger] key_of(c)) by {
                    if c.y == y && c.x == x {
                        assert(c == chunk_pos);
                    }
                }
                x += 1;
            }
            y += 1;
        }
        proof {
            let after = self.chunks();
            let wanted = filled(
                *old(self).generator(),
                old(self).scale().size(),
                old(self).chunks(),
                area,
            );
            assert forall|c: Vector2<i32>| after.contains_key(c) <==> wanted.contains_key(c) by {
                lemma_keys(c, key_of(c));
            }
            assert forall|c: Vector2<i32>| after.contains_key(c) implies after[c] == wanted[c] by {
                lemma_keys(c, key_of(c));
            }
            assert(after =~= wanted);
            assert forall|c: Vector2<i32>|
                in_range(c, area, tile_size) && !(#[trigger] old(self).chunks().contains_key(
                    c,
                )) implies self.generator.chunk_answered(c, tile_size) by {
                lemma_keys(c, key_of(c));
                assert(self.chunks@.contains_key(key_of(c)));
            }
        }
        self.view(area)
    }

    /// The chunks in the range of `area` that have been generated, row by
    /// row. Nothing is generated.
    pub fn view(&self, area: Area<i32>) -> (view: GenerationView<'_, T>)
        requires
            self.wf(),
        ensures
            view.chunk_size == (Vector2 { x: CHUNK_WIDTH, y: CHUNK_HEIGHT }),
            view.tile_size == self.scale().size(),
            shows(self.chunks(), self.scale().size(), area, view@),
            inverted(area) ==> view@.len() == 0,
    {
        let tile_size = self.scale.tile_size();
        let chunk_size = Vector2 { x: CHUNK_WIDTH, y: CHUNK_HEIGHT };
        let mut visible: Vec<(Vector2<i32>, &ChunkGeneration<T, CHUNK_WIDTH, CHUNK_HEIGHT>)> =
            Vec::new();
        if area.end.x < area.start.x || area.end.y < area.start.y {
            return GenerationView { chunk_size, tile_size, chunks: visible };
        }
        let start = tile_to_chunk_pos(area.start, tile_size);
        let end = tile_to_chunk_pos(area.end, tile_size);
        proof {
            lemma_chunk_of_ordered(area.start, area.end, tile_size);
        }
        let mut y: i64 = start.y as i64;
        while y <= end.y as i64
            invariant
                !inverted(area),
                start == chunk_of(area.start, tile_size),
                end == chunk_of(area.end, tile_size),
                start.x <= end.x,
                start.y <= y <= end.y + 1,
                forall|i: int|
                    0 <= i < visible@.len() ==> {
                        let c = (#[trigger] visible@[i]).0;
                        &&& in_range(c, area, tile_size)
                        &&& c.y < y
                        &&& self.chunks@.contains_key(key_of(c))
                        &&& *visible@[i].1 == self.chunks@[key_of(c)]
                    },
                forall|i: int, j: int|
                    0 <= i < j < visible@.len() ==> row_major_before(
                        (#[trigger] visible@[i]).0,
                        (#[trigger] visible@[j]).0,
                    ),
                forall|c: Vector2<i32>|
                    in_range(c, area, tile_size) && c.y < y && self.chunks@.contains_key(
                        #[trigger] key_of(c),
                    ) ==> exists|i: int| 0 <= i < visible@.len() && (#[trigger] visible@[i]).0 == c,
            decreases end.y + 1 - y,
        {
            let mut x: i64 = start.x as i64;
            while x <= end.x as i64
                invariant
                    !inverted(area),
                    start == chunk_of(area.start, tile_size),
                    end == chunk_of(area.end, tile_size),
                    start.y <= y <= end.y,
                    start.x <= x <= end.x + 1,
                    forall|i: int|
                        0 <= i < visible@.len() ==> {
                            let c = (#[trigger] visible@[i]).0;
                            &&& in_range(c, area, tile_size)
                            &&& (c.y < y || (c.y == y && c.x < x))
                            &&& self.chunks@.contains_key(key_of(c))
                            &&& *visible@[i].1 == self.chunks@[key_of(c)]
                        },
                    forall|i: int, j: int|
                        0 <= i < j < visible@.len() ==> row_major_before(
                            (#[trigger] visible@[i]).0,
                            (#[trigger] visible@[j]).0,
                        ),
                    forall|c: Vector2<i32>|
                        in_range(c, area, tile_size) && (c.y < y || (c.y == y && c.x < x))
                            && self.chunks@.contains_key(#[trigger] key_of(c)) ==> exists|i: int|
                            0 <= i < visible@.len() && (#[trigger] visible@[i]).0 == c,
                decreases end.x + 1 - x,
            {
                let chunk_pos = Vector2 { x: x as i32, y: y as i32 };
                let key = chunk_key(chunk_pos);
                let ghost earlier = visible@;
                match self.chunks.get(&key) {
                    Some(chunk) => {
                        visible.push((chunk_pos, chunk));
                        assert(visible@[earlier.len() as int].0 == chunk_pos);
                        assert forall|i: int| 0 <= i < earlier.len() implies #[trigger] visible@[i]
                            == earlier[i] by {}
                    },
                    None => {},
                }
                assert forall|c: Vector2<i32>|
                    in_range(c, area, tile_size) && (c.y < y || (c.y == y && c.x < x + 1))
                        && self.chunks@.contains_key(#[trigger] key_of(c)) implies exists|i: int|
                    0 <= i < visible@.len() && (#[trigger] visible@[i]).0 == c by {
                    if c.y == y && c.x == x {
                        assert(c == chunk_pos);
                        assert(visible@[earlier.len() as int].0 == c);
                    } else {
                        let i = choose|i: int|
                            0 <= i < earlier.len() && (#[trigger] earlier[i]).0 == c;
                        assert(visible@[i].0 == c);
                    }
                }
                x += 1;
            }
            y += 1;
        }
        let view = GenerationView { chunk_size, tile_size, chunks: visible };
        proof {
            let chunks = self.chunks();
            assert forall|i: int| 0 <= i < view@.len() implies in_range(
                (#[trigger] view@[i]).0,
                area,
                tile_size,
            ) && chunks.contains_key(view@[i].0) && view@[i].1 == chunks[view@[i].0] by {
                assert(view@[i].0 == visible@[i].0);
            }
            assert forall|i: int, j: int| 0 <= i < j < view@.len() implies row_major_before(
                (#[trigger] view@[i]).0,
                (#[trigger] view@[j]).0,
            ) by {
                assert(row_major_before(visible@[i].0, visible@[j].0));
            }
            assert forall|c: Vector2<i32>|
                in_range(c, area, tile_size) && #[trigger] chunks.contains_key(c) implies exists|
                i: int,
            |
                0 <= i < view@.len() && (#[trigger] view@[i]).0 == c by {
                assert(self.chunks@.contains_key(key_of(c)));
                let i = choose|i: int| 0 <= i < visible@.len() && (#[trigger] visible@[i]).0 == c;
                assert(view@[i].0 == c);
            }
        }
        view
    }
}

/// A cache and its reading by chunk coordinate hold equally many chunks.
proof fn lemma_cache_size<T, const W: usize, const H: usize>(
    cache: Map<i64, ChunkGeneration<T, W, H>>,
    chunks: Map<Vector2<i32>, Seq<Tile<T>>>,
)
    requires
        cache.dom().finite(),
        chunks.dom() =~= Set::new(|c: Vector2<i32>| cache.contains_key(key_of(c))),
    ensures
        chunks.dom().finite(),
        chunks.dom().len() == cache.dom().len(),
{
    let keys = cache.dom();
    let decode = |key: i64| coordinate_of(key);
    let coordinates = keys.map(decode);
    assert(coordinates =~= chunks.dom()) by {
        assert forall|c: Vector2<i32>| chunks.dom().contains(c) implies coordinates.contains(
            c,
        ) by {
            lemma_keys(c, 0);
            assert(keys.contains(key_of(c)));
        }
        assert forall|c: Vector2<i32>| coordinates.contains(c) implies chunks.dom().contains(
            c,
        ) by {
            let key = choose|key: i64| keys.contains(key) && coordinate_of(key) == c;
            lemma_keys(c, key);
        }
    }
    assert(vstd::relations::injective_on(decode, keys)) by {
        assert forall|a: i64, b: i64|
            keys.contains(a) && keys.contains(b) && #[trigger] decode(a) == #[trigger] decode(
                b,
            ) implies a == b by {
            lemma_keys(coordinate_of(a), a);
            lemma_keys(coordinate_of(b), b);
        }
    }
    vstd::set_lib::lemma_map_size(keys, coordinates, decode);
}

} // verus!
