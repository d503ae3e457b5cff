use particle_sandbox::entity_map::{remap, EntityMap};
use particle_sandbox::math_helpers::Vec2;

const S: i64 = 65536;

fn grid_100x100_cell10() -> EntityMap {
    EntityMap::new(Vec2::new(100 * S, 100 * S), 10 * S).unwrap()
}

#[test]
fn new_rejects_non_positive_cell_size() {
    assert!(EntityMap::new(Vec2::new(100 * S, 100 * S), 0).is_none());
    assert!(EntityMap::new(Vec2::new(100 * S, 100 * S), -5 * S).is_none());
}

#[test]
fn new_rejects_empty_domain() {
    assert!(EntityMap::new(Vec2::new(0, 100 * S), 10 * S).is_none());
    assert!(EntityMap::new(Vec2::new(100 * S, 0), 10 * S).is_none());
}

#[test]
fn new_takes_absolute_domain_size() {
    let map = EntityMap::new(Vec2::new(-100 * S, 100 * S), 10 * S).unwrap();
    let size = map.get_map_size();
    assert_eq!(size.x, 100 * S);
    assert_eq!(size.y, 100 * S);
    let (cols, rows) = map.get_map_dims();
    assert_eq!(cols, 10);
    assert_eq!(rows, 10);
    assert_eq!(map.get_container_size(), 10 * S);
}

#[test]
fn dims_round_up() {
    // 95 units with cells of 10 need 10 columns.
    let map = EntityMap::new(Vec2::new(95 * S, 95 * S), 10 * S).unwrap();
    let (cols, rows) = map.get_map_dims();
    assert_eq!(cols, 10);
    assert_eq!(rows, 10);
}

#[test]
fn index_of_center() {
    let map = grid_100x100_cell10();
    // (0,0) translates to (50,50): column 5, row 5.
    assert_eq!(map.pos_to_container_index(Vec2::new(0, 0)), 5 * 10 + 5);
}

#[test]
fn index_of_corners() {
    let map = grid_100x100_cell10();
    // Lower-left corner is cell 0.
    assert_eq!(map.pos_to_container_index(Vec2::new(-50 * S, -50 * S)), 0);
    // The upper edge maps to the last row/column, not out of range.
    assert_eq!(map.pos_to_container_index(Vec2::new(50 * S, 50 * S)), 99);
}

#[test]
fn index_of_clamps_outside_positions() {
    let map = grid_100x100_cell10();
    // Far outside: clamped to the nearest edge cell, never out of range.
    assert_eq!(map.pos_to_container_index(Vec2::new(-1000 * S, -1000 * S)), 0);
    assert_eq!(map.pos_to_container_index(Vec2::new(1000 * S, 1000 * S)), 99);
    assert_eq!(map.pos_to_container_index(Vec2::new(1000 * S, -1000 * S)), 9);
    assert_eq!(map.pos_to_container_index(Vec2::new(i64::MAX, i64::MIN)), 9);
}

#[test]
fn index_always_in_range() {
    // Grid coverage: positions inside and outside the domain always map to
    // a cell index within the grid.
    let map = grid_100x100_cell10();
    let mut x = -70 * S;
    while x <= 70 * S {
        let mut y = -70 * S;
        while y <= 70 * S {
            assert!(map.pos_to_container_index(Vec2::new(x, y)) < 100);
            y += 7 * S / 2;
        }
        x += 7 * S / 2;
    }
}

#[test]
fn add_entity_and_query_neighbors() {
    let mut map = grid_100x100_cell10();
    let p1 = Vec2::new(0, 0);
    let p2 = Vec2::new(3 * S, 0); // same cell
    let p3 = Vec2::new(-9 * S, 0); // adjacent cell (column 4)
    let far = Vec2::new(40 * S, 40 * S); // far away
    map.add_entity(1, p1);
    map.add_entity(2, p2);
    map.add_entity(3, p3);
    map.add_entity(4, far);
    let related = map.get_related_entities(p1);
    assert!(related.contains(&1));
    assert!(related.contains(&2));
    assert!(related.contains(&3));
    assert!(!related.contains(&4));
}

#[test]
fn neighbor_completeness_overlapping_circles() {
    // Two circles of radius 4 with centres 6 apart overlap; with cells of
    // side 10 >= 2*4 each must see the other.
    let map0 = grid_100x100_cell10();
    let mut map = map0;
    let p1 = Vec2::new(4 * S, 0);
    let p2 = Vec2::new(10 * S, 0); // different cell (columns 5 and 6)
    map.add_entity(1, p1);
    map.add_entity(2, p2);
    let from_p1 = map.get_related_entities(p1);
    let from_p2 = map.get_related_entities(p2);
    assert!(from_p1.contains(&2));
    assert!(from_p2.contains(&1));
}

#[test]
fn remap_rebuilds_from_positions() {
    let mut map = grid_100x100_cell10();
    map.add_entity(7, Vec2::new(0, 0));
    // After a rebuild the old contents are gone and the new bodies are in
    // the cells of their positions.
    let bodies = vec![(1u64, Vec2::new(-45 * S, -45 * S)), (2u64, Vec2::new(45 * S, 45 * S))];
    remap(&mut map, &bodies);
    let counts = map.container_counts();
    assert_eq!(counts.len(), 100);
    assert_eq!(counts.iter().sum::<usize>(), 2);
    assert_eq!(counts[0], 1);
    assert_eq!(counts[99], 1);
    let related = map.get_related_entities(Vec2::new(-45 * S, -45 * S));
    assert_eq!(related, vec![1]);
}

#[test]
fn clear_empties_every_cell() {
    let mut map = grid_100x100_cell10();
    map.add_entity(1, Vec2::new(0, 0));
    map.add_entity(2, Vec2::new(20 * S, 20 * S));
    map.clear();
    assert_eq!(map.container_counts().iter().sum::<usize>(), 0);
}
