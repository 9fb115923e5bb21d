use generation::{Area, ChunkGeneration, Vector2};

#[test]
fn vector_new_sets_both_coordinates() {
    let v = Vector2::new(3, -4);
    assert_eq!(v.x, 3);
    assert_eq!(v.y, -4);
    assert_eq!(v, Vector2 { x: 3, y: -4 });
}

#[test]
fn vector_map_applies_to_each_coordinate() {
    let v = Vector2::new(3u8, 250u8).map(|c| c as u32 + 10);
    assert_eq!(v, Vector2::new(13u32, 260u32));
}

#[test]
fn vector_map_may_change_the_type() {
    let v = Vector2::new(1, 2).map(|c| c % 2 == 0);
    assert_eq!(v, Vector2::new(false, true));
}

#[test]
fn vector_sum_is_coordinate_wise() {
    assert_eq!(Vector2::new(1, 2) + Vector2::new(10, -20), Vector2::new(11, -18));
}

#[test]
fn vector_times_factor() {
    assert_eq!(Vector2::new(3, -4) * 5, Vector2::new(15, -20));
}

#[test]
fn vector_times_vector_is_coordinate_wise() {
    assert_eq!(Vector2::new(3, -4) * Vector2::new(2, 7), Vector2::new(6, -28));
}

#[test]
fn vector_divided_by_divisor() {
    assert_eq!(Vector2::new(17u32, 4u32) / 5, Vector2::new(3, 0));
}

#[test]
fn vector_divided_by_vector_is_coordinate_wise() {
    assert_eq!(Vector2::new(17u32, 40u32) / Vector2::new(5, 8), Vector2::new(3, 5));
}

#[test]
fn signed_division_rounds_towards_zero() {
    assert_eq!(Vector2::new(-7, 7) / 2, Vector2::new(-3, 3));
}

#[test]
fn area_translate_moves_both_corners() {
    let area = Area { start: Vector2::new(0, 1), end: Vector2::new(10, 11) };
    let moved = area.translate(Vector2::new(-5, 100));
    assert_eq!(moved.start, Vector2::new(-5, 101));
    assert_eq!(moved.end, Vector2::new(5, 111));
}

#[test]
fn area_width_and_height() {
    let area = Area { start: Vector2::new(2, 3), end: Vector2::new(12, 7) };
    assert_eq!(area.width(), 10);
    assert_eq!(area.height(), 4);
}

#[test]
fn inverted_area_has_negative_extent() {
    let area = Area { start: Vector2::new(10, 10), end: Vector2::new(0, 4) };
    assert_eq!(area.width(), -10);
    assert_eq!(area.height(), -6);
}

#[test]
fn area_divided_by_vector() {
    let area = Area { start: Vector2::new(10u32, 9u32), end: Vector2::new(100, 81) };
    let quotient = area / Vector2::new(10, 9);
    assert_eq!(quotient.start, Vector2::new(1, 1));
    assert_eq!(quotient.end, Vector2::new(10, 9));
}

#[test]
fn chunk_iter_walks_row_by_row() {
    let chunk: ChunkGeneration<char, 3, 2> =
        ChunkGeneration::new(vec![Some('a'), None, Some('c'), Some('d'), Some('e'), None]);
    let tiles = chunk.iter();
    assert_eq!(tiles.len(), 6);
    let positions: Vec<Vector2<usize>> = tiles.iter().map(|tile| tile.0).collect();
    assert_eq!(
        positions,
        vec![
            Vector2::new(0, 0),
            Vector2::new(1, 0),
            Vector2::new(2, 0),
            Vector2::new(0, 1),
            Vector2::new(1, 1),
            Vector2::new(2, 1),
        ]
    );
    let categories: Vec<Option<char>> = tiles.iter().map(|tile| *tile.1).collect();
    assert_eq!(categories, vec![Some('a'), None, Some('c'), Some('d'), Some('e'), None]);
}

#[test]
fn chunk_without_tiles_iterates_nothing() {
    let chunk: ChunkGeneration<u8, 0, 7> = ChunkGeneration::new(Vec::new());
    assert!(chunk.iter().is_empty());
}
