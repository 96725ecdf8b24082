//! Dungeon generation and map geometry.

use rusty_roguelike::map::{mask_to_glyph, GameMap, TileType, MAPCOUNT, MAPWIDTH};
use rusty_roguelike::map_builders::{build_random_map, new_map_random};
use rusty_roguelike::rng::rng_seeded;
use rusty_roguelike::rect::Rect;

#[test]
fn generated_dungeon_has_rooms_floors_and_one_staircase() {
    for seed in [1u64, 7, 42, 1234, 99999] {
        let (map, start) = build_random_map(1, seed);
        assert!(!map.rooms.is_empty());
        assert!(map.rooms.len() <= 30);
        assert_eq!(map.depth, 1);

        // exactly one staircase
        let stairs: Vec<usize> = (0..MAPCOUNT)
            .filter(|&i| map.tiles[i] == TileType::DownStairs)
            .collect();
        assert_eq!(stairs.len(), 1);

        // every room tile is floor, except possibly the single staircase
        for room in &map.rooms {
            for x in room.x1..=room.x2 {
                for y in room.y1..=room.y2 {
                    let idx = GameMap::xy_idx(x, y);
                    assert!(
                        map.tiles[idx] == TileType::Floor || idx == stairs[0],
                        "room tile not carved at ({}, {})",
                        x,
                        y
                    );
                }
            }
        }

        // the start position is the centre of the first room
        let r0 = &map.rooms[0];
        assert_eq!(start.x, (r0.x1 + r0.x2) / 2);
        assert_eq!(start.y, (r0.y1 + r0.y2) / 2);
        assert!(r0.x1 <= start.x && start.x <= r0.x2);
        assert!(r0.y1 <= start.y && start.y <= r0.y2);
    }
}

#[test]
fn different_depths_keep_the_depth_counter() {
    let (map, _) = build_random_map(3, 11);
    assert_eq!(map.depth, 3);
}

#[test]
fn xy_idx_is_row_major() {
    assert_eq!(GameMap::xy_idx(0, 0), 0);
    assert_eq!(GameMap::xy_idx(79, 0), 79);
    assert_eq!(GameMap::xy_idx(0, 1), MAPWIDTH);
    assert_eq!(GameMap::xy_idx(5, 3), 3 * MAPWIDTH + 5);
}

#[test]
fn fresh_map_is_all_walls_and_unrevealed() {
    let map = GameMap::new(2);
    assert_eq!(map.tiles.len(), MAPCOUNT);
    assert!(map.tiles.iter().all(|t| *t == TileType::Wall));
    assert!(map.revealed.iter().all(|r| !*r));
    assert!(map.visible.iter().all(|v| !*v));
    assert_eq!(map.depth, 2);
}

#[test]
fn populate_blocked_marks_exactly_walls() {
    let mut map = GameMap::new(1);
    let idx = GameMap::xy_idx(10, 10);
    map.tiles[idx] = TileType::Floor;
    map.populate_blocked();
    assert!(!map.blocked[idx]);
    assert!(map.blocked[GameMap::xy_idx(11, 10)]);
}

#[test]
fn rect_intersection_and_center() {
    let a = Rect::new(1, 1, 10, 10);
    let b = Rect::new(5, 5, 10, 10);
    let c = Rect::new(20, 20, 3, 3);
    assert!(a.intersect(&b));
    assert!(b.intersect(&a));
    assert!(!a.intersect(&c));
    let (cx, cy) = a.center();
    assert_eq!((cx, cy), (6, 6));
}

#[test]
fn wall_glyph_table_matches() {
    assert_eq!(mask_to_glyph(0), 9);
    assert_eq!(mask_to_glyph(1), 186);
    assert_eq!(mask_to_glyph(4), 205);
    assert_eq!(mask_to_glyph(5), 188);
    assert_eq!(mask_to_glyph(14), 203);
    assert_eq!(mask_to_glyph(15), 35);
    assert_eq!(mask_to_glyph(200), 35);
}


#[test]
fn the_random_wall_map_is_solid_rock() {
    let mut rng = rng_seeded(8);
    let map = new_map_random(4, &mut rng);
    assert_eq!(map.depth, 4);
    assert!(map.tiles.iter().all(|t| *t == TileType::Wall));
}


#[test]
fn rooms_do_not_intersect_and_have_the_stated_sizes() {
    for seed in [2u64, 21, 404] {
        let (map, _) = build_random_map(1, seed);
        for (a, ra) in map.rooms.iter().enumerate() {
            assert!((6..=9).contains(&(ra.x2 - ra.x1)));
            assert!((6..=9).contains(&(ra.y2 - ra.y1)));
            for rb in map.rooms.iter().skip(a + 1) {
                assert!(!ra.intersect(rb));
            }
        }
    }
}

#[test]
fn consecutive_room_centres_are_joined_by_an_l_corridor() {
    let floorish = |map: &GameMap, x: i32, y: i32| {
        let t = map.tiles[GameMap::xy_idx(x, y)];
        t == TileType::Floor || t == TileType::DownStairs
    };
    for seed in [3u64, 77, 2024] {
        let (map, _) = build_random_map(1, seed);
        for w in map.rooms.windows(2) {
            let (px, py) = ((w[0].x1 + w[0].x2) / 2, (w[0].y1 + w[0].y2) / 2);
            let (nx, ny) = ((w[1].x1 + w[1].x2) / 2, (w[1].y1 + w[1].y2) / 2);
            let horiz_first = (px.min(nx)..=px.max(nx)).all(|x| floorish(&map, x, py))
                && (py.min(ny)..=py.max(ny)).all(|y| floorish(&map, nx, y));
            let vert_first = (py.min(ny)..=py.max(ny)).all(|y| floorish(&map, px, y))
                && (px.min(nx)..=px.max(nx)).all(|x| floorish(&map, x, ny));
            assert!(horiz_first || vert_first);
        }
    }
}
