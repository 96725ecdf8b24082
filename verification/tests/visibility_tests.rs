//! Field of view and the visibility system.

use rusty_roguelike::components::{Player, Point, Position, Viewshed};
use rusty_roguelike::ecs::Column;
use rusty_roguelike::map::{GameMap, TileType};
use rusty_roguelike::monster_ai::{a_star_search, MonsterAI};
use rusty_roguelike::visibility::{field_of_view, VisibilitySystem};

fn open_map() -> GameMap {
    let mut map = GameMap::new(1);
    for x in 1..79 {
        for y in 1..49 {
            let idx = GameMap::xy_idx(x, y);
            map.tiles[idx] = TileType::Floor;
        }
    }
    map
}

#[test]
fn fov_stays_on_map_and_within_range() {
    let map = open_map();
    let range = 8;
    let tiles = field_of_view(40, 25, range, &map);
    assert!(!tiles.is_empty());
    for t in &tiles {
        assert!(t.x >= 0 && t.x < 80 && t.y >= 0 && t.y < 50);
        let dx = (t.x - 40) as i64;
        let dy = (t.y - 25) as i64;
        assert!(dx * dx + dy * dy <= (range * range) as i64);
    }
    // the origin itself is seen
    assert!(tiles.iter().any(|t| t.x == 40 && t.y == 25));
}

#[test]
fn fov_near_the_border_stays_inside() {
    let map = open_map();
    let tiles = field_of_view(1, 1, 8, &map);
    for t in &tiles {
        assert!(t.x >= 0 && t.x < 80 && t.y >= 0 && t.y < 50);
    }
}

#[test]
fn walls_block_line_of_sight() {
    let mut map = open_map();
    // a wall strictly between the eye and the far tile on one straight line
    map.tiles[GameMap::xy_idx(12, 10)] = TileType::Wall;
    let tiles = field_of_view(10, 10, 8, &map);
    assert!(tiles.iter().any(|t| t.x == 11 && t.y == 10));
    assert!(!tiles.iter().any(|t| t.x == 14 && t.y == 10));
}

#[test]
fn clean_viewsheds_are_left_untouched() {
    let mut map = open_map();
    let mut viewsheds: Column<Viewshed> = Column::new(1);
    let positions: Column<Position> = {
        let mut c = Column::new(1);
        c.insert(0, Position { x: 10, y: 10 });
        c
    };
    let players: Column<Player> = Column::new(1);
    // a clean viewshed with deliberately odd contents
    viewsheds.insert(0, Viewshed { tiles: vec![Point { x: 3, y: 4 }], range: 8, dirty: false });
    VisibilitySystem::run(&mut viewsheds, &positions, &players, &mut map);
    let vs = viewsheds.get(0).unwrap();
    assert!(!vs.dirty);
    assert_eq!(vs.tiles.len(), 1);
    assert_eq!(vs.tiles[0], Point { x: 3, y: 4 });
}

#[test]
fn player_recompute_rewrites_fog_of_war() {
    let mut map = open_map();
    let mut viewsheds: Column<Viewshed> = Column::new(1);
    let mut positions: Column<Position> = Column::new(1);
    let mut players: Column<Player> = Column::new(1);
    positions.insert(0, Position { x: 20, y: 20 });
    players.insert(0, Player {});
    viewsheds.insert(0, Viewshed { tiles: Vec::new(), range: 8, dirty: true });
    VisibilitySystem::run(&mut viewsheds, &positions, &players, &mut map);
    let vs = viewsheds.get(0).unwrap();
    assert!(!vs.dirty);
    assert!(!vs.tiles.is_empty());
    // the standing tile is visible and revealed, and a faraway one is not
    let here = GameMap::xy_idx(20, 20);
    let far = GameMap::xy_idx(70, 40);
    assert!(map.visible[here]);
    assert!(map.revealed[here]);
    assert!(!map.visible[far]);
    assert!(!map.revealed[far]);
    // every visible tile comes from the viewshed
    for idx in 0..map.visible.len() {
        if map.visible[idx] {
            assert!(vs
                .tiles
                .iter()
                .any(|t| GameMap::xy_idx(t.x, t.y) == idx));
        }
    }
}

#[test]
fn path_search_returns_a_walkable_path() {
    let mut map = open_map();
    map.populate_blocked();
    let start = GameMap::xy_idx(5, 5);
    let goal = GameMap::xy_idx(20, 17);
    let path = a_star_search(start, goal, &map);
    assert!(path.success);
    assert_eq!(path.steps[0], start);
    assert_eq!(*path.steps.last().unwrap(), goal);
    for w in path.steps.windows(2) {
        let (ax, ay) = ((w[0] % 80) as i32, (w[0] / 80) as i32);
        let (bx, by) = ((w[1] % 80) as i32, (w[1] / 80) as i32);
        assert!((ax - bx).abs() <= 1 && (ay - by).abs() <= 1);
        assert!(!(ax == bx && ay == by));
    }
    for &s in &path.steps[1..] {
        assert!(!map.blocked[s]);
    }
}

#[test]
fn path_search_reports_failure_when_walled_in() {
    let mut map = GameMap::new(1);
    // a single open cell, sealed on all sides
    map.tiles[GameMap::xy_idx(10, 10)] = TileType::Floor;
    map.tiles[GameMap::xy_idx(30, 30)] = TileType::Floor;
    map.populate_blocked();
    let path = a_star_search(GameMap::xy_idx(10, 10), GameMap::xy_idx(30, 30), &map);
    assert!(!path.success);
}


#[test]
fn a_seeing_monster_steps_toward_the_player() {
    let mut map = open_map();
    map.populate_blocked();
    let mut w = rusty_roguelike::world::World::new();
    let monster = w.create_entity();
    w.monsters.insert(monster.idx, rusty_roguelike::components::Monster {});
    w.positions.insert(monster.idx, Position { x: 10, y: 10 });
    // the monster already has the player's tile in its sight list
    w.viewsheds.insert(monster.idx, Viewshed {
        tiles: vec![Point { x: 15, y: 10 }],
        range: 8,
        dirty: false,
    });
    MonsterAI::run(&w.alive, &w.monsters, &mut w.viewsheds, &mut w.positions, &map,
        Point { x: 15, y: 10 });
    let p = *w.positions.get(monster.idx).unwrap();
    // one step, straight toward the player
    assert_eq!((p.x, p.y), (11, 10));
    assert!(w.viewsheds.get(monster.idx).unwrap().dirty);
}

#[test]
fn an_adjacent_monster_stays_put() {
    let mut map = open_map();
    map.populate_blocked();
    let mut w = rusty_roguelike::world::World::new();
    let monster = w.create_entity();
    w.monsters.insert(monster.idx, rusty_roguelike::components::Monster {});
    w.positions.insert(monster.idx, Position { x: 10, y: 10 });
    w.viewsheds.insert(monster.idx, Viewshed {
        tiles: vec![Point { x: 11, y: 10 }],
        range: 8,
        dirty: false,
    });
    MonsterAI::run(&w.alive, &w.monsters, &mut w.viewsheds, &mut w.positions, &map,
        Point { x: 11, y: 10 });
    let p = *w.positions.get(monster.idx).unwrap();
    assert_eq!((p.x, p.y), (10, 10));
}
