use generation::{
    tile_to_chunk_pos, Area, GenerationScale, NoiseField, NoiseParameters, ParameterRange,
    TileGeneration, Vector2, WorldGenerator,
};
use std::cell::Cell;

#[derive(Clone, Copy, Debug, PartialEq, Eq)]
enum Biome {
    Ocean,
    Forest,
}

fn area(start: (i32, i32), end: (i32, i32)) -> Area<i32> {
    Area { start: Vector2::new(start.0, start.1), end: Vector2::new(end.0, end.1) }
}

/// A world whose "Height" is the `x` coordinate: ocean for `-7..=0`, forest
/// for `1..=9`, nothing elsewhere. `calls` counts the samples taken.
fn striped_world<'a>(
    calls: &'a Cell<usize>,
) -> WorldGenerator<Biome, impl Fn(NoiseField, Vector2<i64>) -> i64 + 'a> {
    let mut world = WorldGenerator::new(move |_noise: NoiseField, position: Vector2<i64>| {
        calls.set(calls.get() + 1);
        position.x
    });
    let generator = world.generator_mut();
    generator.add_noise("Height", 0, NoiseParameters::new(100, 3, 2000, 500, -7, 13));
    generator
        .add_generation(
            Biome::Ocean,
            TileGeneration::new(vec![("Height", ParameterRange::new(-7, 0))]),
        )
        .unwrap();
    generator
        .add_generation(
            Biome::Forest,
            TileGeneration::new(vec![("Height", ParameterRange::new(1, 9))]),
        )
        .unwrap();
    world
}

fn shown_chunks(world_view: &generation::GenerationView<'_, Biome>) -> Vec<(i32, i32)> {
    world_view.chunks().iter().map(|chunk| (chunk.0.x, chunk.0.y)).collect()
}

#[test]
fn chunk_of_a_position_rounds_down() {
    let unit = Vector2::new(1u16, 1u16);
    assert_eq!(tile_to_chunk_pos(Vector2::new(0, 0), unit), Vector2::new(0, 0));
    assert_eq!(tile_to_chunk_pos(Vector2::new(49, 50), unit), Vector2::new(0, 1));
    assert_eq!(tile_to_chunk_pos(Vector2::new(-1, -50), unit), Vector2::new(-1, -1));
    assert_eq!(tile_to_chunk_pos(Vector2::new(-51, 99), unit), Vector2::new(-2, 1));
    let wide = Vector2::new(2u16, 3u16);
    assert_eq!(tile_to_chunk_pos(Vector2::new(99, 150), wide), Vector2::new(0, 1));
    assert_eq!(tile_to_chunk_pos(Vector2::new(100, 149), wide), Vector2::new(1, 0));
    assert_eq!(tile_to_chunk_pos(Vector2::new(-100, -151), wide), Vector2::new(-1, -2));
}

#[test]
fn chunk_of_the_far_corners() {
    let unit = Vector2::new(1u16, 1u16);
    assert_eq!(
        tile_to_chunk_pos(Vector2::new(i32::MIN, i32::MAX), unit),
        Vector2::new(-42949673, 42949672)
    );
    let huge = Vector2::new(u16::MAX, u16::MAX);
    assert_eq!(tile_to_chunk_pos(Vector2::new(i32::MIN, i32::MAX), huge), Vector2::new(-656, 655));
}

#[test]
fn scale_gives_its_tile_size() {
    let scale = GenerationScale::TileSize { x: 4, y: 9 };
    assert_eq!(scale.tile_size(), Vector2::new(4, 9));
    assert!(scale.is_positive());
    assert!(!GenerationScale::TileSize { x: 0, y: 9 }.is_positive());
    assert!(!GenerationScale::TileSize { x: 4, y: 0 }.is_positive());
}

#[test]
fn new_world_has_unit_tiles_and_no_chunks() {
    let calls = Cell::new(0);
    let world = striped_world(&calls);
    assert_eq!(world.scale(), GenerationScale::TileSize { x: 1, y: 1 });
    assert_eq!(world.chunk_count(), 0);
    assert_eq!(world.generator().noise_count(), 1);
    assert_eq!(world.generator().generation_count(), 2);
    let seen = world.view(area((0, 0), (500, 500)));
    assert!(seen.chunks().is_empty());
    assert!(seen.tiles().is_empty());
    assert_eq!(calls.get(), 0);
}

#[test]
fn view_generates_nothing() {
    let calls = Cell::new(0);
    let world = striped_world(&calls);
    let seen = world.view(area((0, 0), (10, 10)));
    assert!(seen.chunks.is_empty());
    assert_eq!(world.chunk_count(), 0);
    assert_eq!(calls.get(), 0);
}

#[test]
fn generated_area_is_covered_by_whole_chunks() {
    let calls = Cell::new(0);
    let mut world = striped_world(&calls);
    let wanted = area((-1, 10), (120, 60));
    let seen = world.generate_area(wanted);
    assert_eq!(seen.chunk_size, Vector2::new(50, 50));
    assert_eq!(seen.tile_size, Vector2::new(1, 1));
    assert_eq!(
        shown_chunks(&seen),
        vec![(-1, 0), (0, 0), (1, 0), (2, 0), (-1, 1), (0, 1), (1, 1), (2, 1)]
    );
    // Every point of the area lies in one of the chunks.
    let chunks = shown_chunks(&seen);
    for x in -1..=120 {
        for y in 10..=60 {
            let covered = chunks.iter().any(|chunk| {
                chunk.0 * 50 <= x && x < (chunk.0 + 1) * 50 && chunk.1 * 50 <= y && y < (chunk.1 + 1) * 50
            });
            assert!(covered);
        }
    }
    assert_eq!(world.chunk_count(), 8);
    assert_eq!(calls.get(), 8 * 2500);
}

#[test]
fn point_area_generates_its_chunk() {
    let calls = Cell::new(0);
    let mut world = striped_world(&calls);
    let seen = world.generate_area(area((75, -3), (75, -3)));
    assert_eq!(shown_chunks(&seen), vec![(1, -1)]);
    assert_eq!(world.chunk_count(), 1);
}

#[test]
fn tiles_carry_their_world_areas() {
    let calls = Cell::new(0);
    let mut world = striped_world(&calls);
    world.set_scale(GenerationScale::TileSize { x: 2, y: 3 });
    let seen = world.generate_area(area((0, 0), (0, 0)));
    assert_eq!(seen.tile_size, Vector2::new(2, 3));
    let tiles = seen.tiles();
    // Height is x: 0 is ocean, 2, 4, 6, 8 are forest; that is five columns of fifty rows.
    assert_eq!(tiles.len(), 5 * 50);
    let first = &tiles[0];
    assert_eq!(first.0.start, Vector2::new(0, 0));
    assert_eq!(first.0.end, Vector2::new(2, 3));
    assert_eq!(*first.1, Biome::Ocean);
    let second = &tiles[1];
    assert_eq!(second.0.start, Vector2::new(2, 0));
    assert_eq!(second.0.end, Vector2::new(4, 3));
    assert_eq!(*second.1, Biome::Forest);
    // Row 7 starts after seven rows of five classified tiles.
    let later = &tiles[7 * 5 + 4];
    assert_eq!(later.0.start, Vector2::new(8, 21));
    assert_eq!(later.0.end, Vector2::new(10, 24));
    assert_eq!(*later.1, Biome::Forest);
}

#[test]
fn tiles_of_a_chunk_left_of_the_origin() {
    let calls = Cell::new(0);
    let mut world = striped_world(&calls);
    let seen = world.generate_area(area((-1, -1), (-1, -1)));
    assert_eq!(shown_chunks(&seen), vec![(-1, -1)]);
    let tiles = seen.tiles();
    // Columns -7..=-1 are ocean: seven per row.
    assert_eq!(tiles.len(), 7 * 50);
    assert_eq!(tiles[0].0.start, Vector2::new(-7, -50));
    assert_eq!(tiles[0].0.end, Vector2::new(-6, -49));
    assert_eq!(tiles[6].0.start, Vector2::new(-1, -50));
    assert_eq!(tiles[7].0.start, Vector2::new(-7, -49));
    assert!(tiles.iter().all(|tile| *tile.1 == Biome::Ocean));
}

#[test]
fn chunks_list_every_tile_with_its_place() {
    let calls = Cell::new(0);
    let mut world = striped_world(&calls);
    let seen = world.generate_area(area((0, 0), (60, 0)));
    let chunks = seen.chunks();
    assert_eq!(chunks.len(), 2);
    assert_eq!(chunks[0].0, Vector2::new(0, 0));
    assert_eq!(chunks[1].0, Vector2::new(1, 0));
    assert_eq!(chunks[0].1.len(), 2500);
    assert_eq!(chunks[0].1[0].0, Vector2::new(0, 0));
    assert_eq!(*chunks[0].1[0].1, Some(Biome::Ocean));
    assert_eq!(chunks[0].1[9].0, Vector2::new(9, 0));
    assert_eq!(*chunks[0].1[9].1, Some(Biome::Forest));
    assert_eq!(chunks[0].1[10].0, Vector2::new(10, 0));
    assert_eq!(*chunks[0].1[10].1, None);
    assert_eq!(chunks[0].1[50 * 3 + 4].0, Vector2::new(4, 3));
    assert_eq!(*chunks[0].1[50 * 3 + 4].1, Some(Biome::Forest));
    assert!(chunks[1].1.iter().all(|tile| tile.1.is_none()));
}

#[test]
fn tiles_and_chunks_can_be_asked_again() {
    let calls = Cell::new(0);
    let mut world = striped_world(&calls);
    let seen = world.generate_area(area((0, 0), (10, 10)));
    assert_eq!(seen.tiles().len(), seen.tiles().len());
    assert_eq!(seen.chunks().len(), 1);
    assert_eq!(seen.chunks().len(), 1);
    assert_eq!(seen.tiles().len(), 10 * 50);
}

#[test]
fn overlapping_areas_generate_each_chunk_once() {
    let calls = Cell::new(0);
    let mut world = striped_world(&calls);
    world.generate_area(area((0, 0), (60, 10)));
    assert_eq!(world.chunk_count(), 2);
    assert_eq!(calls.get(), 2 * 2500);
    let before: Vec<Option<Biome>> =
        world.view(area((0, 0), (0, 0))).chunks()[0].1.iter().map(|tile| *tile.1).collect();

    world.generate_area(area((30, 0), (120, 10)));
    assert_eq!(world.chunk_count(), 3);
    assert_eq!(calls.get(), 3 * 2500);
    let after: Vec<Option<Biome>> =
        world.view(area((0, 0), (0, 0))).chunks()[0].1.iter().map(|tile| *tile.1).collect();
    assert_eq!(before, after);

    world.generate_area(area((0, 0), (120, 10)));
    assert_eq!(world.chunk_count(), 3);
    assert_eq!(calls.get(), 3 * 2500);
}

#[test]
fn cached_chunk_outlives_a_change_of_rules() {
    let calls = Cell::new(0);
    let mut world = striped_world(&calls);
    world.generate_area(area((0, 0), (0, 0)));
    world
        .generator_mut()
        .add_generation(
            Biome::Forest,
            TileGeneration::new(vec![("Height", ParameterRange::new(10, 10))]),
        )
        .unwrap();
    let seen = world.generate_area(area((0, 0), (0, 0)));
    // The chunk was generated under the old rules and is not generated again.
    assert_eq!(*seen.chunks()[0].1[10].1, None);
    assert_eq!(calls.get(), 2500);
}

#[test]
fn new_scale_drops_the_chunks() {
    let calls = Cell::new(0);
    let mut world = striped_world(&calls);
    let wanted = area((0, 0), (60, 60));
    assert_eq!(world.generate_area(wanted).chunks.len(), 4);
    world.set_scale(GenerationScale::TileSize { x: 2, y: 1 });
    assert_eq!(world.scale(), GenerationScale::TileSize { x: 2, y: 1 });
    assert_eq!(world.chunk_count(), 0);
    let seen = world.view(wanted);
    assert!(seen.chunks().is_empty());
    assert!(seen.tiles().is_empty());
    assert_eq!(seen.tile_size, Vector2::new(2, 1));
}

#[test]
fn same_scale_keeps_the_chunks() {
    let calls = Cell::new(0);
    let mut world = striped_world(&calls);
    let wanted = area((0, 0), (60, 60));
    let before = shown_chunks(&world.generate_area(wanted));
    world.set_scale(GenerationScale::TileSize { x: 1, y: 1 });
    assert_eq!(world.chunk_count(), 4);
    let seen = world.view(wanted);
    assert_eq!(shown_chunks(&seen), before);
    assert_eq!(seen.tiles().len(), 10 * 50 * 2);
    assert_eq!(calls.get(), 4 * 2500);
}

#[test]
fn chunks_are_generated_at_the_scale_in_force() {
    let calls = Cell::new(0);
    let mut world = striped_world(&calls);
    world.set_scale(GenerationScale::TileSize { x: 3, y: 3 });
    // One chunk spans 150: position 149 lies in chunk 0, position 150 in chunk 1.
    assert_eq!(shown_chunks(&world.generate_area(area((149, 0), (149, 0)))), vec![(0, 0)]);
    assert_eq!(shown_chunks(&world.generate_area(area((150, 0), (150, 0)))), vec![(1, 0)]);
    // Columns are sampled at 0, 3, 6, 9: ocean once and forest three times per row.
    assert_eq!(world.view(area((0, 0), (0, 0))).tiles().len(), 4 * 50);
}

#[test]
fn inverted_area_of_a_new_world_shows_nothing() {
    let calls = Cell::new(0);
    let world = striped_world(&calls);
    let seen = world.view(area((10, 10), (0, 0)));
    assert!(seen.tiles().is_empty());
    assert!(seen.chunks().is_empty());
}

#[test]
fn area_inverted_across_chunks_shows_and_generates_nothing() {
    let calls = Cell::new(0);
    let mut world = striped_world(&calls);
    world.generate_area(area((0, 0), (120, 120)));
    assert_eq!(world.chunk_count(), 9);
    for inverted in [area((60, 60), (0, 0)), area((60, 0), (0, 60)), area((0, 60), (60, 0))] {
        let seen = world.view(inverted);
        assert!(seen.tiles().is_empty());
        assert!(seen.chunks().is_empty());
    }
    let seen = world.generate_area(area((500, 500), (400, 400)));
    assert!(seen.chunks().is_empty());
    assert_eq!(world.chunk_count(), 9);
}

#[test]
fn area_inverted_within_one_chunk_shows_nothing() {
    let calls = Cell::new(0);
    let mut world = striped_world(&calls);
    world.generate_area(area((0, 0), (10, 10)));
    assert_eq!(world.chunk_count(), 1);
    for inverted in [area((10, 10), (0, 0)), area((10, 0), (0, 10)), area((0, 10), (10, 0))] {
        let seen = world.view(inverted);
        assert!(seen.tiles().is_empty());
        assert!(seen.chunks().is_empty());
        assert_eq!(seen.tile_size, Vector2::new(1, 1));
    }
}

#[test]
fn inverted_area_generates_nothing() {
    let calls = Cell::new(0);
    let mut world = striped_world(&calls);
    let seen = world.generate_area(area((10, 10), (0, 0)));
    assert!(seen.tiles().is_empty());
    assert!(seen.chunks().is_empty());
    assert_eq!(world.chunk_count(), 0);
    assert_eq!(calls.get(), 0);
    world.generate_area(area((0, 0), (10, 10)));
    let seen = world.generate_area(area((10, 5), (9, 5)));
    assert!(seen.chunks().is_empty());
    assert_eq!(world.chunk_count(), 1);
    assert_eq!(calls.get(), 2500);
}

#[test]
fn area_of_one_point_is_not_inverted() {
    let calls = Cell::new(0);
    let mut world = striped_world(&calls);
    world.generate_area(area((0, 0), (10, 10)));
    let seen = world.view(area((10, 10), (10, 10)));
    assert_eq!(shown_chunks(&seen), vec![(0, 0)]);
}

#[test]
fn view_shows_only_what_was_generated() {
    let calls = Cell::new(0);
    let mut world = striped_world(&calls);
    world.generate_area(area((0, 0), (0, 0)));
    world.generate_area(area((100, 50), (100, 50)));
    let seen = world.view(area((-200, -200), (200, 200)));
    assert_eq!(shown_chunks(&seen), vec![(0, 0), (2, 1)]);
}
