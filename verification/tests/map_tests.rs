use resource_simulation::map::{cell_is_free, deposit_rng, mix_seed, place_deposit, scatter_deposits, GridMap, Tile, WALL_MAX_DURABILITY};
use resource_simulation::rng::MapRng;
use resource_simulation::pos_map::PosMap;
use resource_simulation::types::Resource;
use resource_simulation::pathfinding::{bfs, passable_neighbors};
use resource_simulation::types::{Direction, ResourceKind};

fn grid(rows: &[&str]) -> GridMap {
    let tiles: Vec<Vec<Tile>> = rows
        .iter()
        .map(|r| {
            r.chars()
                .map(|c| match c {
                    '#' => Tile::Obstacle(3),
                    'B' => Tile::Base,
                    _ => Tile::Empty,
                })
                .collect()
        })
        .collect();
    GridMap { width: rows[0].len(), height: rows.len(), tiles }
}

#[test]
fn delta_of_each_direction() {
    assert_eq!(Direction::Up.delta(), (0, -1));
    assert_eq!(Direction::Down.delta(), (0, 1));
    assert_eq!(Direction::Left.delta(), (-1, 0));
    assert_eq!(Direction::Right.delta(), (1, 0));
}

#[test]
fn passable_and_base_checks() {
    let m = grid(&[".#.", ".B.", "..."]);
    assert!(m.is_passable(0, 0));
    assert!(!m.is_passable(1, 0));
    assert!(m.is_passable(1, 1));
    assert!(!m.is_passable(3, 0));
    assert!(!m.is_passable(0, 3));
    assert!(m.is_base(1, 1));
    assert!(!m.is_base(0, 0));
    assert!(!m.is_base(5, 5));
    assert_eq!(m.base_pos(), (1, 1));
}

#[test]
fn damage_wall_wears_then_destroys() {
    let mut m = grid(&["#.."]);
    assert!(m.damage_wall(0, 0, 1));
    assert_eq!(m.tiles[0][0], Tile::Obstacle(2));
    assert!(m.damage_wall(0, 0, 1));
    assert_eq!(m.tiles[0][0], Tile::Obstacle(1));
    assert!(m.damage_wall(0, 0, 3));
    assert_eq!(m.tiles[0][0], Tile::Empty);
    // nothing left to hit
    assert!(!m.damage_wall(0, 0, 3));
    assert!(!m.damage_wall(1, 0, 3));
    assert!(!m.damage_wall(9, 0, 3));
}

#[test]
fn mix_seed_is_splitmix64() {
    assert_eq!(mix_seed(0), 0xE220_A839_7B1D_CDAF);
    assert_ne!(mix_seed(1), mix_seed(2));
}

fn no_walls(w: usize, h: usize) -> Vec<Vec<bool>> {
    vec![vec![false; w]; h]
}

#[test]
fn generate_clears_base_and_places_deposits() {
    let mut walls = no_walls(30, 20);
    walls[0][0] = true;
    walls[10][15] = true; // inside the base square, cleared
    let (map, resources) = GridMap::generate(30, 20, 42, &walls, (10, 20), (30, 50));
    assert_eq!(map.width, 30);
    assert_eq!(map.height, 20);
    assert_eq!(map.tiles[0][0], Tile::Obstacle(WALL_MAX_DURABILITY));
    for y in 8..=12 {
        for x in 13..=17 {
            assert_eq!(map.tiles[y][x], Tile::Base);
        }
    }
    assert_eq!(map.tiles[7][15], Tile::Empty);
    assert_eq!(resources.len(), 30 * 20 / 35);
    for p in resources.keys() {
        assert_eq!(map.tiles[p.1][p.0], Tile::Empty);
        let r = resources.get(p).unwrap();
        match r.kind {
            ResourceKind::Energy => assert!(10 <= r.quantity && r.quantity <= 20),
            ResourceKind::Crystal => assert!(30 <= r.quantity && r.quantity <= 50),
        }
    }
}

#[test]
fn generate_is_reproducible_from_its_seed() {
    let walls = no_walls(40, 20);
    let (_, a) = GridMap::generate(40, 20, 7, &walls, (10, 20), (10, 20));
    let (_, b) = GridMap::generate(40, 20, 7, &walls, (10, 20), (10, 20));
    assert_eq!(a.keys(), b.keys());
    for p in a.keys() {
        assert_eq!(a.get(p), b.get(p));
    }
}

#[test]
fn generate_small_map_has_no_deposit() {
    let walls = no_walls(5, 5);
    let (map, resources) = GridMap::generate(5, 5, 1, &walls, (1, 1), (1, 1));
    assert_eq!(resources.len(), 0);
    assert!(map.tiles.iter().all(|row| row.iter().all(|t| *t == Tile::Base)));
}

#[test]
fn neighbors_in_move_order() {
    let m = grid(&["...", "...", "..."]);
    assert_eq!(passable_neighbors(&m, (1, 1)), vec![(2, 1), (0, 1), (1, 2), (1, 0)]);
    assert_eq!(passable_neighbors(&m, (0, 0)), vec![(1, 0), (0, 1)]);
    let w = grid(&[".#.", "#..", "..."]);
    assert_eq!(passable_neighbors(&w, (0, 0)), Vec::<(usize, usize)>::new());
    assert_eq!(passable_neighbors(&w, (1, 1)), vec![(2, 1), (1, 2)]);
}

#[test]
fn bfs_same_cell_is_empty_route() {
    let m = grid(&["..."]);
    assert_eq!(bfs(&m, (1, 0), (1, 0)), Some(vec![]));
}

#[test]
fn bfs_straight_line() {
    let m = grid(&["....."]);
    assert_eq!(bfs(&m, (0, 0), (4, 0)), Some(vec![(1, 0), (2, 0), (3, 0), (4, 0)]));
}

#[test]
fn bfs_goes_round_walls_by_a_shortest_route() {
    let m = grid(&[".#...", ".#.#.", "...#."]);
    let path = bfs(&m, (0, 0), (4, 0)).unwrap();
    assert_eq!(path.len(), 8);
    assert_eq!(*path.last().unwrap(), (4, 0));
    let mut prev = (0usize, 0usize);
    for p in &path {
        let d = (prev.0 as i64 - p.0 as i64).abs() + (prev.1 as i64 - p.1 as i64).abs();
        assert_eq!(d, 1);
        prev = *p;
    }
}

#[test]
fn bfs_enters_an_impassable_goal() {
    let m = grid(&["..#"]);
    assert_eq!(bfs(&m, (0, 0), (2, 0)), Some(vec![(1, 0), (2, 0)]));
}

#[test]
fn bfs_unreachable_goal_is_none() {
    let m = grid(&[".#.", "##.", "..."]);
    assert_eq!(bfs(&m, (0, 0), (2, 2)), None);
}

#[test]
fn bfs_goal_just_outside_the_map() {
    let m = grid(&["..."]);
    assert_eq!(bfs(&m, (1, 0), (3, 0)), Some(vec![(2, 0), (3, 0)]));
    assert_eq!(bfs(&m, (1, 0), (5, 0)), None);
}

#[test]
fn deposit_lands_only_on_free_empty_ground() {
    let m = grid(&[".#.", ".B.", "..."]);
    let mut placed: PosMap<Resource> = PosMap::new();
    assert!(cell_is_free(&m, &placed, 0, 0));
    place_deposit(&m, &mut placed, 0, 0, true, 42);
    assert_eq!(placed.get((0, 0)), Some(Resource { kind: ResourceKind::Energy, quantity: 42 }));
    assert!(!cell_is_free(&m, &placed, 0, 0));
    place_deposit(&m, &mut placed, 0, 0, false, 7);
    assert_eq!(placed.get((0, 0)), Some(Resource { kind: ResourceKind::Energy, quantity: 42 }));
    place_deposit(&m, &mut placed, 1, 0, false, 7);
    place_deposit(&m, &mut placed, 1, 1, false, 7);
    place_deposit(&m, &mut placed, 5, 5, false, 7);
    assert_eq!(placed.len(), 1);
    place_deposit(&m, &mut placed, 2, 2, false, 7);
    assert_eq!(placed.get((2, 2)), Some(Resource { kind: ResourceKind::Crystal, quantity: 7 }));
    assert_eq!(placed.len(), 2);
}

#[test]
fn bfs_prefers_the_earlier_turn_among_equal_routes() {
    let m = grid(&["...", "...", "..."]);
    // right before down: along the top row, then down the right column
    assert_eq!(bfs(&m, (0, 0), (2, 2)), Some(vec![(1, 0), (2, 0), (2, 1), (2, 2)]));
    // left before up
    assert_eq!(bfs(&m, (2, 2), (0, 0)), Some(vec![(1, 2), (0, 2), (0, 1), (0, 0)]));
}

#[test]
fn scatter_uses_the_whole_map_and_reproduces_from_the_seed() {
    let rows: Vec<String> = (0..20).map(|_| ".".repeat(35)).collect();
    let refs: Vec<&str> = rows.iter().map(|r| r.as_str()).collect();
    let m = grid(&refs);
    let mut rng = MapRng::seeded(99);
    let placed = scatter_deposits(&m, &mut rng, (10, 20), (30, 40));
    assert_eq!(placed.len(), 20);
    let keys = placed.keys();
    assert!(keys.iter().any(|p| p.1 > 0));
    assert!(keys.iter().any(|p| p.0 > 0));
    for p in keys.iter() {
        let r = placed.get(*p).unwrap();
        match r.kind {
            ResourceKind::Energy => assert!(10 <= r.quantity && r.quantity <= 20),
            ResourceKind::Crystal => assert!(30 <= r.quantity && r.quantity <= 40),
        }
    }
    let mut again = MapRng::seeded(99);
    let placed2 = scatter_deposits(&m, &mut again, (10, 20), (30, 40));
    assert_eq!(placed2.keys(), keys);
}

#[test]
fn deposit_generator_follows_the_seed() {
    let walls = vec![vec![false; 35]; 20];
    let (m, a) = GridMap::generate(35, 20, 5, &walls, (10, 20), (30, 40));
    let mut rng = deposit_rng(5);
    let b = scatter_deposits(&m, &mut rng, (10, 20), (30, 40));
    assert_eq!(a.keys(), b.keys());
    for p in a.keys() {
        assert_eq!(a.get(p), b.get(p));
    }
}
