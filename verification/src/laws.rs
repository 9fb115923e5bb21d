use crate::chunk::Tile;
use crate::generator::{
    classification, is_winner, is_winner_among, lemma_winner_unique, Generator, CHUNK_HEIGHT,
    CHUNK_WIDTH,
};
use crate::noise_parameters::NoiseField;
use crate::tile_generation::TileGeneration;
use crate::types::{Area, Vector2};
use crate::world::{
    chunk_index, chunk_of, filled, in_range, lemma_chunk_index, rescaled, row_major_before, shows,
    GenerationScale,
};
use vstd::arithmetic::div_mod::lemma_div_is_ordered;
use vstd::prelude::*;

verus! {

/// Two generators with the same noises, the same rules and the same sampler
/// give every position the same tile.
pub proof fn law_same_setup_same_tile<T, S: Fn(NoiseField, Vector2<i64>) -> i64>(
    one: Generator<T, S>,
    other: Generator<T, S>,
    position: Vector2<i64>,
)
    requires
        one.noise_list() == other.noise_list(),
        one.generations() == other.generations(),
        one.sampler() == other.sampler(),
    ensures
        one.tile_at(position) == other.tile_at(position),
        one.sampled(position) == other.sampled(position),
{
    assert(one.sampled(position) =~= other.sampled(position));
}

/// Among the first `n` rules, one wins as soon as one accepts.
proof fn lemma_winner_exists<T>(
    rules: Seq<(T, TileGeneration)>,
    values: Map<Seq<char>, i64>,
    n: int,
)
    requires
        0 <= n <= rules.len(),
        exists|k: int| 0 <= k < n && (#[trigger] rules[k]).1.score(values) is Some,
    ensures
        exists|w: int| is_winner_among(rules, values, n, w),
    decreases n,
{
    let last = n - 1;
    if exists|k: int| 0 <= k < last && (#[trigger] rules[k]).1.score(values) is Some {
        lemma_winner_exists(rules, values, last);
        let w = choose|w: int| is_winner_among(rules, values, last, w);
        if rules[last].1.score(values) is Some && rules[last].1.score(values)->0
            < rules[w].1.score(values)->0 {
            assert(is_winner_among(rules, values, n, last));
        } else {
            assert(is_winner_among(rules, values, n, w));
        }
    } else {
        assert(rules[last].1.score(values) is Some);
        assert(is_winner_among(rules, values, n, last));
    }
}

/// A tile stays unclassified exactly where every rule rejects the values.
pub proof fn law_unclassified_iff_all_reject<T>(
    rules: Seq<(T, TileGeneration)>,
    values: Map<Seq<char>, i64>,
)
    ensures
        classification(rules, values) is None <==> forall|k: int|
            0 <= k < rules.len() ==> (#[trigger] rules[k]).1.score(values) is None,
{
    if exists|k: int| 0 <= k < rules.len() && (#[trigger] rules[k]).1.score(values) is Some {
        lemma_winner_exists(rules, values, rules.len() as int);
        let w = choose|w: int| is_winner_among(rules, values, rules.len() as int, w);
        assert(is_winner(rules, values, w));
    } else {
        assert forall|w: int| !is_winner(rules, values, w) by {
            if 0 <= w < rules.len() {
                assert(rules[w].1.score(values) is None);
            }
        }
    }
}

/// The category of a classified tile belongs to a rule that accepts the
/// values, and no accepting rule scores lower.
pub proof fn law_classified_by_best_rule<T>(
    rules: Seq<(T, TileGeneration)>,
    values: Map<Seq<char>, i64>,
)
    requires
        classification(rules, values) is Some,
    ensures
        exists|w: int|
            {
                &&& 0 <= w < rules.len()
                &&& classification(rules, values) == Some((#[trigger] rules[w]).0)
                &&& rules[w].1.score(values) is Some
                &&& forall|k: int|
                    0 <= k < rules.len() && (#[trigger] rules[k]).1.score(values) is Some
                        ==> rules[k].1.score(values)->0 >= rules[w].1.score(values)->0
            },
{
    let w = choose|w: int| is_winner(rules, values, w);
    assert(classification(rules, values) == Some(rules[w].0));
}

/// Of two rules that score the same, the one registered later never wins;
/// and where no third rule scores as low, the one registered first does.
pub proof fn law_first_registered_wins_ties<T>(
    rules: Seq<(T, TileGeneration)>,
    values: Map<Seq<char>, i64>,
    first: int,
    second: int,
)
    requires
        0 <= first < second < rules.len(),
        rules[first].1.score(values) is Some,
        rules[second].1.score(values) == rules[first].1.score(values),
    ensures
        !is_winner(rules, values, second),
        (forall|k: int|
            0 <= k < rules.len() && k != first && k != second && (#[trigger] rules[k]).1.score(
                values,
            ) is Some ==> rules[k].1.score(values)->0 > rules[first].1.score(values)->0)
            ==> classification(rules, values) == Some(rules[first].0),
{
    if is_winner(rules, values, second) {
        assert(rules[first].1.score(values)->0 > rules[second].1.score(values)->0);
    }
    if forall|k: int|
        0 <= k < rules.len() && k != first && k != second && (#[trigger] rules[k]).1.score(
            values,
        ) is Some ==> rules[k].1.score(values)->0 > rules[first].1.score(values)->0 {
        assert(is_winner(rules, values, first));
        lemma_winner_unique(rules, values, first, choose|w: int| is_winner(rules, values, w));
    }
}

/// Chunk `chunk_pos` covers `point`: the point lies at or after the chunk's
/// origin and before the next chunk's, along both axes.
pub open spec fn chunk_covers(
    chunk_pos: Vector2<i32>,
    tile_size: Vector2<u16>,
    point: Vector2<i32>,
) -> bool {
    &&& chunk_pos.x * (CHUNK_WIDTH * tile_size.x) <= point.x < (chunk_pos.x + 1) * (CHUNK_WIDTH
        * tile_size.x)
    &&& chunk_pos.y * (CHUNK_HEIGHT * tile_size.y) <= point.y < (chunk_pos.y + 1) * (CHUNK_HEIGHT
        * tile_size.y)
}

/// Every point has its chunk, which covers it; and a point between two
/// others has its chunk between theirs.
pub proof fn law_chunk_of_covers(point: Vector2<i32>, tile_size: Vector2<u16>)
    requires
        tile_size.x > 0,
        tile_size.y > 0,
    ensures
        chunk_covers(chunk_of(point, tile_size), tile_size, point),
        chunk_of(point, tile_size).x == chunk_index(
            point.x as int,
            CHUNK_WIDTH as int,
            tile_size.x as int,
        ),
        chunk_of(point, tile_size).y == chunk_index(
            point.y as int,
            CHUNK_HEIGHT as int,
            tile_size.y as int,
        ),
{
    let span_x = CHUNK_WIDTH * tile_size.x;
    let span_y = CHUNK_HEIGHT * tile_size.y;
    lemma_chunk_index(point.x as int, span_x);
    lemma_chunk_index(point.y as int, span_y);
    let cx = point.x as int / span_x;
    let cy = point.y as int / span_y;
    assert((cx + 1) * span_x == span_x * cx + span_x) by (nonlinear_arith);
    assert((cy + 1) * span_y == span_y * cy + span_y) by (nonlinear_arith);
    assert(cx * span_x == span_x * cx) by (nonlinear_arith);
    assert(cy * span_y == span_y * cy) by (nonlinear_arith);
}

/// The chunk of a point inside an area lies in the area's range.
pub proof fn law_inner_point_in_range(
    area: Area<i32>,
    tile_size: Vector2<u16>,
    point: Vector2<i32>,
)
    requires
        tile_size.x > 0,
        tile_size.y > 0,
        area.start.x <= point.x <= area.end.x,
        area.start.y <= point.y <= area.end.y,
    ensures
        in_range(chunk_of(point, tile_size), area, tile_size),
{
    let span_x = CHUNK_WIDTH * tile_size.x;
    let span_y = CHUNK_HEIGHT * tile_size.y;
    law_chunk_of_covers(point, tile_size);
    law_chunk_of_covers(area.start, tile_size);
    law_chunk_of_covers(area.end, tile_size);
    lemma_div_is_ordered(area.start.x as int, point.x as int, span_x);
    lemma_div_is_ordered(point.x as int, area.end.x as int, span_x);
    lemma_div_is_ordered(area.start.y as int, point.y as int, span_y);
    lemma_div_is_ordered(point.y as int, area.end.y as int, span_y);
}

/// Once an area has been generated, its view holds for every point of the
/// area a chunk that covers the point. So the view of a generated area that
/// has a point is not empty.
pub proof fn law_generated_area_is_covered<T, S: Fn(NoiseField, Vector2<i64>) -> i64>(
    generator: Generator<T, S>,
    tile_size: Vector2<u16>,
    chunks: Map<Vector2<i32>, Seq<Tile<T>>>,
    area: Area<i32>,
    shown: Seq<(Vector2<i32>, Seq<Tile<T>>)>,
    point: Vector2<i32>,
)
    requires
        tile_size.x > 0,
        tile_size.y > 0,
        shows(filled(generator, tile_size, chunks, area), tile_size, area, shown),
        area.start.x <= point.x <= area.end.x,
        area.start.y <= point.y <= area.end.y,
    ensures
        exists|i: int|
            0 <= i < shown.len() && chunk_covers((#[trigger] shown[i]).0, tile_size, point),
        shown.len() > 0,
{
    let c = chunk_of(point, tile_size);
    law_inner_point_in_range(area, tile_size, point);
    law_chunk_of_covers(point, tile_size);
    assert(filled(generator, tile_size, chunks, area).contains_key(c));
    let i = choose|i: int| 0 <= i < shown.len() && (#[trigger] shown[i]).0 == c;
    assert(chunk_covers(shown[i].0, tile_size, point));
}

/// Generating an area leaves every chunk that was there as it was, and gives
/// each new chunk the tiles that the generator assigns to its place.
/// Generating again, the same area or another, changes no chunk that the
/// first generation left.
pub proof fn law_generated_chunks_stay<T, S: Fn(NoiseField, Vector2<i64>) -> i64>(
    generator: Generator<T, S>,
    tile_size: Vector2<u16>,
    chunks: Map<Vector2<i32>, Seq<Tile<T>>>,
    first: Area<i32>,
    second: Area<i32>,
    chunk_pos: Vector2<i32>,
)
    ensures
        ({
            let once = filled(generator, tile_size, chunks, first);
            let twice = filled(generator, tile_size, once, second);
            &&& chunks.contains_key(chunk_pos) ==> once.contains_key(chunk_pos) && once[chunk_pos]
                == chunks[chunk_pos]
            &&& once.contains_key(chunk_pos) ==> twice.contains_key(chunk_pos) && twice[chunk_pos]
                == once[chunk_pos]
            &&& filled(generator, tile_size, once, first) == once
        }),
{
    let once = filled(generator, tile_size, chunks, first);
    assert(filled(generator, tile_size, once, first) =~= once);
}

/// Nothing is shown of a cache without chunks.
pub proof fn law_empty_cache_shows_nothing<T>(
    tile_size: Vector2<u16>,
    area: Area<i32>,
    shown: Seq<(Vector2<i32>, Seq<Tile<T>>)>,
)
    requires
        shows(Map::<Vector2<i32>, Seq<Tile<T>>>::empty(), tile_size, area, shown),
    ensures
        shown.len() == 0,
{
    if shown.len() > 0 {
        assert(Map::<Vector2<i32>, Seq<Tile<T>>>::empty().contains_key(shown[0].0));
    }
}

/// Nothing is shown of an inverted area, whatever has been generated, and
/// generating it generates nothing.
pub proof fn law_inverted_area_is_empty<T, S: Fn(NoiseField, Vector2<i64>) -> i64>(
    generator: Generator<T, S>,
    chunks: Map<Vector2<i32>, Seq<Tile<T>>>,
    tile_size: Vector2<u16>,
    area: Area<i32>,
    shown: Seq<(Vector2<i32>, Seq<Tile<T>>)>,
)
    requires
        shows(chunks, tile_size, area, shown),
        area.end.x < area.start.x || area.end.y < area.start.y,
    ensures
        shown.len() == 0,
        filled(generator, tile_size, chunks, area) == chunks,
{
    if shown.len() > 0 {
        assert(in_range(shown[0].0, area, tile_size));
    }
    assert(filled(generator, tile_size, chunks, area) =~= chunks);
}

/// Two lists that show the same area of the same cache agree up to `n`.
proof fn lemma_shown_prefix<T>(
    chunks: Map<Vector2<i32>, Seq<Tile<T>>>,
    tile_size: Vector2<u16>,
    area: Area<i32>,
    one: Seq<(Vector2<i32>, Seq<Tile<T>>)>,
    other: Seq<(Vector2<i32>, Seq<Tile<T>>)>,
    n: int,
)
    requires
        shows(chunks, tile_size, area, one),
        shows(chunks, tile_size, area, other),
        0 <= n <= one.len(),
        n <= other.len(),
    ensures
        forall|i: int| 0 <= i < n ==> #[trigger] one[i] == other[i],
    decreases n,
{
    if n > 0 {
        lemma_shown_prefix(chunks, tile_size, area, one, other, n - 1);
        let a = one[n - 1].0;
        let b = other[n - 1].0;
        if a != b {
            if row_major_before(a, b) {
                lemma_not_later(chunks, tile_size, area, one, other, n - 1);
            } else {
                assert(row_major_before(b, a));
                lemma_not_later(chunks, tile_size, area, other, one, n - 1);
            }
        }
        assert(one[n - 1].1 == chunks[a]);
        assert(other[n - 1].1 == chunks[b]);
    }
}

/// Where two lists that show the same area agree before `at`, the chunk of
/// `one` at `at` does not come before that of `other`.
proof fn lemma_not_later<T>(
    chunks: Map<Vector2<i32>, Seq<Tile<T>>>,
    tile_size: Vector2<u16>,
    area: Area<i32>,
    one: Seq<(Vector2<i32>, Seq<Tile<T>>)>,
    other: Seq<(Vector2<i32>, Seq<Tile<T>>)>,
    at: int,
)
    requires
        shows(chunks, tile_size, area, one),
        shows(chunks, tile_size, area, other),
        0 <= at < one.len(),
        at < other.len(),
        forall|i: int| 0 <= i < at ==> #[trigger] one[i] == other[i],
    ensures
        !row_major_before(one[at].0, other[at].0),
{
    let a = one[at].0;
    if row_major_before(a, other[at].0) {
        assert(in_range(a, area, tile_size) && chunks.contains_key(a));
        let j = choose|j: int| 0 <= j < other.len() && (#[trigger] other[j]).0 == a;
        if j < at {
            assert(other[j] == one[j]);
            assert(row_major_before(one[j].0, one[at].0));
        } else if j > at {
            assert(row_major_before(other[at].0, other[j].0));
        }
    }
}

/// The view of an area is a function of the cache and the scale: two lists
/// that show the same area of the same cache are the same list.
pub proof fn law_view_is_determined<T>(
    chunks: Map<Vector2<i32>, Seq<Tile<T>>>,
    tile_size: Vector2<u16>,
    area: Area<i32>,
    one: Seq<(Vector2<i32>, Seq<Tile<T>>)>,
    other: Seq<(Vector2<i32>, Seq<Tile<T>>)>,
)
    requires
        shows(chunks, tile_size, area, one),
        shows(chunks, tile_size, area, other),
    ensures
        one == other,
{
    let n = if one.len() <= other.len() {
        one.len() as int
    } else {
        other.len() as int
    };
    lemma_shown_prefix(chunks, tile_size, area, one, other, n);
    if one.len() > n {
        lemma_no_more(chunks, tile_size, area, other, one);
    }
    if other.len() > n {
        lemma_no_more(chunks, tile_size, area, one, other);
    }
    assert(one =~= other);
}

/// A list that shows an area is no longer than another that agrees with it
/// as far as that one goes.
proof fn lemma_no_more<T>(
    chunks: Map<Vector2<i32>, Seq<Tile<T>>>,
    tile_size: Vector2<u16>,
    area: Area<i32>,
    short: Seq<(Vector2<i32>, Seq<Tile<T>>)>,
    long: Seq<(Vector2<i32>, Seq<Tile<T>>)>,
)
    requires
        shows(chunks, tile_size, area, short),
        shows(chunks, tile_size, area, long),
        short.len() <= long.len(),
        forall|i: int| 0 <= i < short.len() ==> #[trigger] short[i] == long[i],
    ensures
        short.len() == long.len(),
{
    if short.len() < long.len() {
        let at = short.len() as int;
        let a = long[at].0;
        assert(in_range(a, area, tile_size) && chunks.contains_key(a));
        let j = choose|j: int| 0 <= j < short.len() && (#[trigger] short[j]).0 == a;
        assert(short[j] == long[j]);
        assert(row_major_before(long[j].0, long[at].0));
    }
}

/// After the scale has changed, nothing is shown of any area; after the
/// scale in force has been set again, every area shows what it showed.
pub proof fn law_scale_change_drops_all<T>(
    chunks: Map<Vector2<i32>, Seq<Tile<T>>>,
    current: GenerationScale,
    wanted: GenerationScale,
    area: Area<i32>,
    shown_before: Seq<(Vector2<i32>, Seq<Tile<T>>)>,
    shown_after: Seq<(Vector2<i32>, Seq<Tile<T>>)>,
)
    requires
        shows(chunks, current.size(), area, shown_before),
        shows(rescaled(chunks, current, wanted), wanted.size(), area, shown_after),
    ensures
        wanted != current ==> shown_after.len() == 0,
        wanted == current ==> shown_after == shown_before,
{
    if wanted == current {
        law_view_is_determined(chunks, current.size(), area, shown_before, shown_after);
    } else {
        law_empty_cache_shows_nothing(wanted.size(), area, shown_after);
    }
}

} // verus!
